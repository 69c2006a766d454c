//! The spellings that the database uses for the model's enumerations, both ways.
use vstd::prelude::*;
use vstd::string::*;

use crate::error::concat_str;
use crate::models::{AccountStatus, GroupRequestType, GroupRole, GroupStatus, MessageSource, RequestState};
use crate::text::str_equals;

verus! {

/// Builds `sqlx::Error::Protocol(message)`. The resulting error is opaque to proofs:
/// nothing is stated of the message it carries.
#[verifier::external_body]
pub(crate) fn protocol_error(message: String) -> sqlx::Error {
    sqlx::Error::Protocol(message)
}

/// The account status that a stored spelling names, if any.
pub open spec fn account_status_of_db(s: Seq<char>) -> Option<AccountStatus> {
    if s == "active"@ {
        Some(AccountStatus::Active)
    } else if s == "disabled"@ {
        Some(AccountStatus::Disabled)
    } else if s == "unavailable"@ {
        Some(AccountStatus::Unavailable)
    } else if s == "deleted"@ {
        Some(AccountStatus::Deleted)
    } else {
        None
    }
}

/// The group status that a stored spelling names, if any.
pub open spec fn group_status_of_db(s: Seq<char>) -> Option<GroupStatus> {
    if s == "active"@ {
        Some(GroupStatus::Active)
    } else if s == "dissolved"@ {
        Some(GroupStatus::Dissolved)
    } else if s == "unavailable"@ {
        Some(GroupStatus::Unavailable)
    } else {
        None
    }
}

/// The stored spelling of a member role.
pub open spec fn group_role_db(role: GroupRole) -> Seq<char> {
    match role {
        GroupRole::Owner => "owner"@,
        GroupRole::Admin => "admin"@,
        GroupRole::Member => "member"@,
    }
}

/// The member role that a stored spelling names, if any.
pub open spec fn group_role_of_db(s: Seq<char>) -> Option<GroupRole> {
    if s == "owner"@ {
        Some(GroupRole::Owner)
    } else if s == "admin"@ {
        Some(GroupRole::Admin)
    } else if s == "member"@ {
        Some(GroupRole::Member)
    } else {
        None
    }
}

/// The stored spelling of a request state.
pub open spec fn request_state_db(state: RequestState) -> Seq<char> {
    match state {
        RequestState::Pending => "pending"@,
        RequestState::Accepted => "accepted"@,
        RequestState::Rejected => "rejected"@,
        RequestState::Ignored => "ignored"@,
    }
}

/// The request state that a stored spelling names, if any.
pub open spec fn request_state_of_db(s: Seq<char>) -> Option<RequestState> {
    if s == "pending"@ {
        Some(RequestState::Pending)
    } else if s == "accepted"@ {
        Some(RequestState::Accepted)
    } else if s == "rejected"@ {
        Some(RequestState::Rejected)
    } else if s == "ignored"@ {
        Some(RequestState::Ignored)
    } else {
        None
    }
}

/// The stored spelling of a group request kind.
pub open spec fn group_request_type_db(t: GroupRequestType) -> Seq<char> {
    match t {
        GroupRequestType::Join => "join"@,
        GroupRequestType::Invite => "invite"@,
    }
}

/// The group request kind that a stored spelling names, if any.
pub open spec fn group_request_type_of_db(s: Seq<char>) -> Option<GroupRequestType> {
    if s == "join"@ {
        Some(GroupRequestType::Join)
    } else if s == "invite"@ {
        Some(GroupRequestType::Invite)
    } else {
        None
    }
}

/// Decodes an account status; any spelling but the four known ones is a protocol error.
pub fn account_status_from_db(value: &str) -> (r: Result<AccountStatus, sqlx::Error>)
    ensures
        r is Ok <==> account_status_of_db(value@) is Some,
        r matches Ok(s) ==> account_status_of_db(value@) == Some(s),
{
    if str_equals(value, "active") {
        Ok(AccountStatus::Active)
    } else if str_equals(value, "disabled") {
        Ok(AccountStatus::Disabled)
    } else if str_equals(value, "unavailable") {
        Ok(AccountStatus::Unavailable)
    } else if str_equals(value, "deleted") {
        Ok(AccountStatus::Deleted)
    } else {
        Err(protocol_error(concat_str("unknown account status: ", value)))
    }
}

/// Decodes a group status; any spelling but the three known ones is a protocol error.
pub fn group_status_from_db(value: &str) -> (r: Result<GroupStatus, sqlx::Error>)
    ensures
        r is Ok <==> group_status_of_db(value@) is Some,
        r matches Ok(s) ==> group_status_of_db(value@) == Some(s),
{
    if str_equals(value, "active") {
        Ok(GroupStatus::Active)
    } else if str_equals(value, "dissolved") {
        Ok(GroupStatus::Dissolved)
    } else if str_equals(value, "unavailable") {
        Ok(GroupStatus::Unavailable)
    } else {
        Err(protocol_error(concat_str("unknown group status: ", value)))
    }
}

/// The stored spelling of a member role: `owner`, `admin` or `member`.
pub fn group_role_to_db(role: GroupRole) -> (r: &'static str)
    ensures
        r@ == group_role_db(role),
{
    match role {
        GroupRole::Owner => "owner",
        GroupRole::Admin => "admin",
        GroupRole::Member => "member",
    }
}

/// Decodes a member role; any spelling but the three known ones is a protocol error.
pub fn group_role_from_db(value: &str) -> (r: Result<GroupRole, sqlx::Error>)
    ensures
        r is Ok <==> group_role_of_db(value@) is Some,
        r matches Ok(s) ==> group_role_of_db(value@) == Some(s),
{
    if str_equals(value, "owner") {
        Ok(GroupRole::Owner)
    } else if str_equals(value, "admin") {
        Ok(GroupRole::Admin)
    } else if str_equals(value, "member") {
        Ok(GroupRole::Member)
    } else {
        Err(protocol_error(concat_str("unknown group role: ", value)))
    }
}

/// The stored spelling of a request state.
pub fn request_state_to_db(state: RequestState) -> (r: &'static str)
    ensures
        r@ == request_state_db(state),
{
    match state {
        RequestState::Pending => "pending",
        RequestState::Accepted => "accepted",
        RequestState::Rejected => "rejected",
        RequestState::Ignored => "ignored",
    }
}

/// Decodes a request state; any spelling but the four known ones is a protocol error.
pub fn request_state_from_db(value: &str) -> (r: Result<RequestState, sqlx::Error>)
    ensures
        r is Ok <==> request_state_of_db(value@) is Some,
        r matches Ok(s) ==> request_state_of_db(value@) == Some(s),
{
    if str_equals(value, "pending") {
        Ok(RequestState::Pending)
    } else if str_equals(value, "accepted") {
        Ok(RequestState::Accepted)
    } else if str_equals(value, "rejected") {
        Ok(RequestState::Rejected)
    } else if str_equals(value, "ignored") {
        Ok(RequestState::Ignored)
    } else {
        Err(protocol_error(concat_str("unknown request state: ", value)))
    }
}

/// The stored spelling of a group request kind: `join` or `invite`.
pub fn group_request_type_to_db(value: GroupRequestType) -> (r: &'static str)
    ensures
        r@ == group_request_type_db(value),
{
    match value {
        GroupRequestType::Join => "join",
        GroupRequestType::Invite => "invite",
    }
}

/// Decodes a group request kind; any spelling but the two known ones is a protocol error.
pub fn group_request_type_from_db(value: &str) -> (r: Result<GroupRequestType, sqlx::Error>)
    ensures
        r is Ok <==> group_request_type_of_db(value@) is Some,
        r matches Ok(s) ==> group_request_type_of_db(value@) == Some(s),
{
    if str_equals(value, "join") {
        Ok(GroupRequestType::Join)
    } else if str_equals(value, "invite") {
        Ok(GroupRequestType::Invite)
    } else {
        Err(protocol_error(concat_str("unknown group request type: ", value)))
    }
}

/// A group role survives a trip to the database and back, and a stored spelling that
/// decodes is exactly the spelling of the decoded role.
pub proof fn law_group_role_round_trip(role: GroupRole, s: Seq<char>)
    ensures
        group_role_of_db(group_role_db(role)) == Some(role),
        group_role_of_db(s) matches Some(r) ==> group_role_db(r) == s,
{
    reveal_strlit("owner");
    reveal_strlit("admin");
    reveal_strlit("member");
    assert("owner"@[0] != "admin"@[0]);
    assert("owner"@.len() != "member"@.len());
    assert("admin"@.len() != "member"@.len());
}

/// A request state survives a trip to the database and back, and a stored spelling that
/// decodes is exactly the spelling of the decoded state.
pub proof fn law_request_state_round_trip(state: RequestState, s: Seq<char>)
    ensures
        request_state_of_db(request_state_db(state)) == Some(state),
        request_state_of_db(s) matches Some(r) ==> request_state_db(r) == s,
{
    reveal_strlit("pending");
    reveal_strlit("accepted");
    reveal_strlit("rejected");
    reveal_strlit("ignored");
    assert("pending"@[0] != "ignored"@[0]);
    assert("accepted"@[0] != "rejected"@[0]);
    assert("pending"@.len() != "accepted"@.len());
    assert("pending"@.len() != "rejected"@.len());
    assert("ignored"@.len() != "accepted"@.len());
    assert("ignored"@.len() != "rejected"@.len());
}

/// A group request type survives a trip to the database and back, and a stored spelling
/// that decodes is exactly the spelling of the decoded type.
pub proof fn law_group_request_type_round_trip(t: GroupRequestType, s: Seq<char>)
    ensures
        group_request_type_of_db(group_request_type_db(t)) == Some(t),
        group_request_type_of_db(s) matches Some(r) ==> group_request_type_db(r) == s,
{
    reveal_strlit("join");
    reveal_strlit("invite");
    assert("join"@.len() != "invite"@.len());
}

/// Each group status is decoded from exactly the spelling of its own name (`active`,
/// `dissolved`, `unavailable`), so distinct spellings give distinct statuses, and every other
/// spelling is refused.
pub proof fn law_group_status_spellings(s: Seq<char>)
    ensures
        (group_status_of_db(s) == Some(GroupStatus::Active)) == (s == "active"@),
        (group_status_of_db(s) == Some(GroupStatus::Dissolved)) == (s == "dissolved"@),
        (group_status_of_db(s) == Some(GroupStatus::Unavailable)) == (s == "unavailable"@),
        (group_status_of_db(s) is None) == (s != "active"@ && s != "dissolved"@ && s != "unavailable"@),
{
    reveal_strlit("active");
    reveal_strlit("dissolved");
    reveal_strlit("unavailable");
    assert("active"@.len() != "dissolved"@.len());
    assert("active"@.len() != "unavailable"@.len());
    assert("dissolved"@.len() != "unavailable"@.len());
}

/// Each account status is decoded from exactly the spelling of its own name (`active`,
/// `disabled`, `unavailable`, `deleted`), and every other spelling is refused.
pub proof fn law_account_status_spellings(s: Seq<char>)
    ensures
        (account_status_of_db(s) == Some(AccountStatus::Active)) == (s == "active"@),
        (account_status_of_db(s) == Some(AccountStatus::Disabled)) == (s == "disabled"@),
        (account_status_of_db(s) == Some(AccountStatus::Unavailable)) == (s == "unavailable"@),
        (account_status_of_db(s) == Some(AccountStatus::Deleted)) == (s == "deleted"@),
        (account_status_of_db(s) is None) == (s != "active"@ && s != "disabled"@ && s
            != "unavailable"@ && s != "deleted"@),
{
    reveal_strlit("active");
    reveal_strlit("disabled");
    reveal_strlit("unavailable");
    reveal_strlit("deleted");
    assert("active"@.len() != "disabled"@.len());
    assert("active"@.len() != "unavailable"@.len());
    assert("active"@.len() != "deleted"@.len());
    assert("disabled"@.len() != "unavailable"@.len());
    assert("disabled"@.len() != "deleted"@.len());
    assert("unavailable"@.len() != "deleted"@.len());
}

/// Each member role is stored as the spelling of its own name (`owner`, `admin`, `member`)
/// and decoded from exactly that spelling; every other spelling is refused.
pub proof fn law_group_role_spellings(s: Seq<char>)
    ensures
        group_role_db(GroupRole::Owner) == "owner"@,
        group_role_db(GroupRole::Admin) == "admin"@,
        group_role_db(GroupRole::Member) == "member"@,
        (group_role_of_db(s) == Some(GroupRole::Owner)) == (s == "owner"@),
        (group_role_of_db(s) == Some(GroupRole::Admin)) == (s == "admin"@),
        (group_role_of_db(s) == Some(GroupRole::Member)) == (s == "member"@),
        (group_role_of_db(s) is None) == (s != "owner"@ && s != "admin"@ && s != "member"@),
{
    reveal_strlit("owner");
    reveal_strlit("admin");
    reveal_strlit("member");
    assert("owner"@[0] != "admin"@[0]);
    assert("owner"@.len() != "member"@.len());
    assert("admin"@.len() != "member"@.len());
}

/// Each request state is stored as the spelling of its own name (`pending`, `accepted`,
/// `rejected`, `ignored`) and decoded from exactly that spelling; every other spelling is
/// refused.
pub proof fn law_request_state_spellings(s: Seq<char>)
    ensures
        request_state_db(RequestState::Pending) == "pending"@,
        request_state_db(RequestState::Accepted) == "accepted"@,
        request_state_db(RequestState::Rejected) == "rejected"@,
        request_state_db(RequestState::Ignored) == "ignored"@,
        (request_state_of_db(s) == Some(RequestState::Pending)) == (s == "pending"@),
        (request_state_of_db(s) == Some(RequestState::Accepted)) == (s == "accepted"@),
        (request_state_of_db(s) == Some(RequestState::Rejected)) == (s == "rejected"@),
        (request_state_of_db(s) == Some(RequestState::Ignored)) == (s == "ignored"@),
        (request_state_of_db(s) is None) == (s != "pending"@ && s != "accepted"@ && s != "rejected"@
            && s != "ignored"@),
{
    reveal_strlit("pending");
    reveal_strlit("accepted");
    reveal_strlit("rejected");
    reveal_strlit("ignored");
    assert("pending"@[0] != "ignored"@[0]);
    assert("accepted"@[0] != "rejected"@[0]);
    assert("pending"@.len() != "accepted"@.len());
    assert("pending"@.len() != "rejected"@.len());
    assert("ignored"@.len() != "accepted"@.len());
    assert("ignored"@.len() != "rejected"@.len());
}

/// Each group request kind is stored as the spelling of its own name (`join`, `invite`) and
/// decoded from exactly that spelling; every other spelling is refused.
pub proof fn law_group_request_type_spellings(s: Seq<char>)
    ensures
        group_request_type_db(GroupRequestType::Join) == "join"@,
        group_request_type_db(GroupRequestType::Invite) == "invite"@,
        (group_request_type_of_db(s) == Some(GroupRequestType::Join)) == (s == "join"@),
        (group_request_type_of_db(s) == Some(GroupRequestType::Invite)) == (s == "invite"@),
        (group_request_type_of_db(s) is None) == (s != "join"@ && s != "invite"@),
{
    reveal_strlit("join");
    reveal_strlit("invite");
    assert("join"@.len() != "invite"@.len());
}

/// The scene name and identifier under which a message source is stored.
pub open spec fn source_parts(src: MessageSource) -> (Seq<char>, Seq<char>) {
    match src {
        MessageSource::Private { peer_user_id } => ("private"@, peer_user_id@),
        MessageSource::Group { group_id } => ("group"@, group_id@),
    }
}

/// Whether the stored parts `(scene, id)` decode to `src`.
pub open spec fn source_decodes_to(scene: Seq<char>, id: Seq<char>, src: MessageSource) -> bool {
    if scene == "private"@ {
        src matches MessageSource::Private { peer_user_id } && peer_user_id@ == id
    } else if scene == "group"@ {
        src matches MessageSource::Group { group_id } && group_id@ == id
    } else {
        false
    }
}

/// Stored parts decode exactly when the scene is `private` or `group`.
pub open spec fn source_scene_known(scene: Seq<char>) -> bool {
    scene == "private"@ || scene == "group"@
}

impl MessageSource {
    /// The scene name and the peer or group identifier under which the source is stored.
    pub fn to_db_parts(&self) -> (r: (&'static str, &str))
        ensures
            (r.0@, r.1@) == source_parts(*self),
    {
        match self {
            MessageSource::Private { peer_user_id } => ("private", peer_user_id.as_str()),
            MessageSource::Group { group_id } => ("group", group_id.as_str()),
        }
    }

    /// Rebuilds a source from its stored parts; an unknown scene yields
    /// `unknown source type: <scene>`.
    pub fn try_from(value: (&str, String)) -> (r: Result<Self, String>)
        ensures
            r is Ok <==> source_scene_known(value.0@),
            r matches Ok(src) ==> source_decodes_to(value.0@, value.1@, src),
            r matches Err(msg) ==> msg@ == "unknown source type: "@ + value.0@,
    {
        let (source_type, source_id) = value;
        if str_equals(source_type, "private") {
            Ok(MessageSource::Private { peer_user_id: source_id })
        } else if str_equals(source_type, "group") {
            Ok(MessageSource::Group { group_id: source_id })
        } else {
            Err(concat_str("unknown source type: ", source_type))
        }
    }
}

/// The stored parts of a source decode back to that source.
pub proof fn law_message_source_round_trip(src: MessageSource)
    ensures
        source_scene_known(source_parts(src).0),
        source_decodes_to(source_parts(src).0, source_parts(src).1, src),
{
    reveal_strlit("private");
    reveal_strlit("group");
    assert("private"@.len() != "group"@.len());
}

/// A private source is stored under the scene `private` with the peer's id, a group source
/// under `group` with the group's id; `private` decodes only to a private source and `group`
/// only to a group source, each keeping the stored id.
pub proof fn law_message_source_spellings(src: MessageSource, scene: Seq<char>, id: Seq<char>)
    ensures
        src matches MessageSource::Private { peer_user_id } ==> source_parts(src) == ("private"@, peer_user_id@),
        src matches MessageSource::Group { group_id } ==> source_parts(src) == ("group"@, group_id@),
        scene == "private"@ ==> (source_decodes_to(scene, id, src) <==> (src matches MessageSource::Private { peer_user_id } && peer_user_id@ == id)),
        scene == "group"@ ==> (source_decodes_to(scene, id, src) <==> (src matches MessageSource::Group { group_id } && group_id@ == id)),
        scene != "private"@ && scene != "group"@ ==> !source_decodes_to(scene, id, src),
{
    reveal_strlit("private");
    reveal_strlit("group");
    assert("private"@.len() != "group"@.len());
}

} // verus!
