//! The names of the fields of an object differ from each other, so that one does not stand for
//! another.
use vstd::prelude::*;

verus! {

/// Three names of which no two are the same.
pub open spec fn three(a: Seq<char>, b: Seq<char>, c: Seq<char>) -> bool {
    a != b && a != c && b != c
}

/// Four names of which no two are the same.
pub open spec fn four(a: Seq<char>, b: Seq<char>, c: Seq<char>, d: Seq<char>) -> bool {
    three(a, b, c) && three(a, b, d) && c != d
}

/// Five names of which no two are the same.
pub open spec fn five(a: Seq<char>, b: Seq<char>, c: Seq<char>, d: Seq<char>, e: Seq<char>) -> bool {
    four(a, b, c, d) && three(a, b, e) && three(c, d, e)
}

/// Seven names of which no two are the same.
pub open spec fn seven(
    a: Seq<char>,
    b: Seq<char>,
    c: Seq<char>,
    d: Seq<char>,
    e: Seq<char>,
    f: Seq<char>,
    g: Seq<char>,
) -> bool {
    five(a, b, c, d, e) && five(a, b, c, f, g) && four(d, e, f, g)
}

/// The fields of a sync differ.
pub proof fn lemma_sync_names()
    ensures
        seven(
            "next_batch"@,
            "rooms"@,
            "presence"@,
            "account_data"@,
            "to_device"@,
            "device_lists"@,
            "device_one_time_keys_count"@,
        ),
{
    reveal_strlit("next_batch");
    reveal_strlit("rooms");
    reveal_strlit("presence");
    reveal_strlit("account_data");
    reveal_strlit("to_device");
    reveal_strlit("device_lists");
    reveal_strlit("device_one_time_keys_count");
    assert("next_batch"@.len() == 10 && "rooms"@.len() == 5 && "presence"@.len() == 8
        && "account_data"@.len() == 12 && "to_device"@.len() == 9 && "device_lists"@.len() == 12
        && "device_one_time_keys_count"@.len() == 26 && "account_data"@[0] != "device_lists"@[0]);
}

/// The fields of the rooms of a sync differ.
pub proof fn lemma_bucket_names()
    ensures
        four("join"@, "invite"@, "leave"@, "knock"@),
{
    reveal_strlit("join");
    reveal_strlit("invite");
    reveal_strlit("leave");
    reveal_strlit("knock");
    assert("join"@.len() == 4 && "invite"@.len() == 6 && "leave"@.len() == 5
        && "knock"@.len() == 5 && "leave"@[0] != "knock"@[0]);
}

/// The fields of a room of a sync differ.
pub proof fn lemma_room_names()
    ensures
        five(
            "timeline"@,
            "state"@,
            "org.matrix.msc4222.state_after"@,
            "ephemeral"@,
            "account_data"@,
        ),
{
    reveal_strlit("timeline");
    reveal_strlit("state");
    reveal_strlit("org.matrix.msc4222.state_after");
    reveal_strlit("ephemeral");
    reveal_strlit("account_data");
    assert("timeline"@.len() == 8 && "state"@.len() == 5
        && "org.matrix.msc4222.state_after"@.len() == 30 && "ephemeral"@.len() == 9
        && "account_data"@.len() == 12);
}

/// The fields of a timeline differ.
pub proof fn lemma_timeline_names()
    ensures
        three("events"@, "limited"@, "prev_batch"@),
{
    reveal_strlit("events");
    reveal_strlit("limited");
    reveal_strlit("prev_batch");
    assert("events"@.len() == 6 && "limited"@.len() == 7 && "prev_batch"@.len() == 10);
}

/// The fields of the lists of devices differ.
pub proof fn lemma_device_list_names()
    ensures
        "changed"@ != "left"@,
{
    reveal_strlit("changed");
    reveal_strlit("left");
    assert("changed"@.len() == 7 && "left"@.len() == 4);
}

/// The fields of an error differ.
pub proof fn lemma_error_names()
    ensures
        three("errcode"@, "error"@, "room_version"@),
{
    reveal_strlit("errcode");
    reveal_strlit("error");
    reveal_strlit("room_version");
    assert("errcode"@.len() == 7 && "error"@.len() == 5 && "room_version"@.len() == 12);
}

/// The fields of a stripped event differ.
pub proof fn lemma_stripped_names()
    ensures
        four("type"@, "state_key"@, "sender"@, "content"@),
{
    reveal_strlit("type");
    reveal_strlit("state_key");
    reveal_strlit("sender");
    reveal_strlit("content");
    assert("type"@.len() == 4 && "state_key"@.len() == 9 && "sender"@.len() == 6
        && "content"@.len() == 7);
}

/// The fields that a view adds differ.
pub proof fn lemma_view_names()
    ensures
        three("event_id"@, "room_id"@, "unsigned"@),
{
    reveal_strlit("event_id");
    reveal_strlit("room_id");
    reveal_strlit("unsigned");
    assert("event_id"@.len() == 8 && "room_id"@.len() == 7 && "unsigned"@.len() == 8
        && "event_id"@[0] != "unsigned"@[0]);
}

/// The fields of the answer to a transaction differ.
pub proof fn lemma_answer_names()
    ensures
        "pdus"@ != "forward_extremities"@,
{
    reveal_strlit("pdus");
    reveal_strlit("forward_extremities");
    assert("pdus"@.len() == 4 && "forward_extremities"@.len() == 19);
}

/// The fields of the heads of a room differ.
pub proof fn lemma_head_names()
    ensures
        "timeline"@ != "state"@,
{
    reveal_strlit("timeline");
    reveal_strlit("state");
    assert("timeline"@.len() == 8 && "state"@.len() == 5);
}

/// The fields of a walk back differ.
pub proof fn lemma_walk_names()
    ensures
        five(
            "earliest_events"@,
            "latest_events"@,
            "limit"@,
            "state_dag"@,
            "include_latest_events"@,
        ),
{
    reveal_strlit("earliest_events");
    reveal_strlit("latest_events");
    reveal_strlit("limit");
    reveal_strlit("state_dag");
    reveal_strlit("include_latest_events");
    assert("earliest_events"@.len() == 15 && "latest_events"@.len() == 13 && "limit"@.len() == 5
        && "state_dag"@.len() == 9 && "include_latest_events"@.len() == 21);
}

/// The fields of the content of a membership differ.
pub proof fn lemma_member_names()
    ensures
        "membership"@ != "displayname"@,
{
    reveal_strlit("membership");
    reveal_strlit("displayname");
    assert("membership"@.len() == 10 && "displayname"@.len() == 11);
}

/// The fields of the room of an alias differ.
pub proof fn lemma_alias_names()
    ensures
        "room_id"@ != "servers"@,
{
    reveal_strlit("room_id");
    reveal_strlit("servers");
    assert("room_id"@.len() == 7 && "servers"@.len() == 7 && "room_id"@[0] != "servers"@[0]);
}

/// The fields of a list of devices differ.
pub proof fn lemma_device_names()
    ensures
        seven(
            "user_id"@,
            "stream_id"@,
            "devices"@,
            "master_key"@,
            "self_signing_key"@,
            "device_id"@,
            "keys"@,
        ),
{
    reveal_strlit("user_id");
    reveal_strlit("stream_id");
    reveal_strlit("devices");
    reveal_strlit("master_key");
    reveal_strlit("self_signing_key");
    reveal_strlit("device_id");
    reveal_strlit("keys");
    assert("user_id"@.len() == 7 && "stream_id"@.len() == 9 && "devices"@.len() == 7
        && "master_key"@.len() == 10 && "self_signing_key"@.len() == 16
        && "device_id"@.len() == 9 && "keys"@.len() == 4 && "user_id"@[0] != "devices"@[0]
        && "stream_id"@[0] != "device_id"@[0]);
}

/// The types of ephemeral messages differ.
pub proof fn lemma_edu_names()
    ensures
        three("m.direct_to_device"@, "m.typing"@, "m.receipt"@),
{
    reveal_strlit("m.direct_to_device");
    reveal_strlit("m.typing");
    reveal_strlit("m.receipt");
    assert("m.direct_to_device"@.len() == 18 && "m.typing"@.len() == 8
        && "m.receipt"@.len() == 9);
}

} // verus!
