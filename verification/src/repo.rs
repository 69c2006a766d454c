//! The decisions that the database repositories take around their queries: how a message is
//! routed to its conversation, which conversation a flag update touches, how a packet listing
//! query is assembled, how settings are stored as text, who joins a group when a request is
//! accepted, and the rules on folders, album covers and uploads.
use vstd::prelude::*;
use vstd::string::*;

use crate::codecs::protocol_error;
use crate::error::concat_str;
use crate::models::{GroupEssenceMessageEntity, GroupRequestEntity, GroupRequestType, RequestState};
use crate::logging::{all_digits, digits_value};
use crate::registry::{decimal, opt_view, u64_to_decimal};
use crate::text::{str_equals, trim, trim_seq};

verus! {

/// A group event as stored.
pub struct GroupEventRecord {
    pub id: i64,
    pub group_id: u64,
    pub payload: String,
    pub created_at: u64,
}

/// A group event to store.
pub struct NewGroupEventRecord {
    pub group_id: u64,
    pub payload: String,
    pub created_at: u64,
}

/// A group join request or invitation to store.
pub struct NewGroupRequestRecord {
    pub group_id: u64,
    pub request_type: GroupRequestType,
    pub initiator_user_id: u64,
    pub target_user_id: Option<u64>,
    pub comment: Option<String>,
    pub created_at: u64,
}

/// A reaction to a message, to store.
pub struct NewMessageReactionRecord {
    pub message_id: String,
    pub operator_user_id: String,
    pub face_id: String,
    pub is_add: bool,
    pub created_at: u64,
}

/// A poke to store.
pub struct NewPokeRecord {
    pub source_type: String,
    pub source_id: String,
    pub sender_user_id: String,
    pub target_user_id: String,
    pub created_at: u64,
}

/// A message as stored.
pub struct MessageRecord {
    pub id: String,
    pub sender_user_id: String,
    pub source_type: String,
    pub source_id: String,
    pub receiver_user_id: Option<String>,
    pub group_id: Option<String>,
    pub content_json: String,
    pub quoted_message_id: Option<String>,
    pub is_recalled: bool,
    pub recalled_by_user_id: Option<String>,
    pub created_at: u64,
}

/// A message to store, seen from the user `owner_user_id` whose conversation it belongs to.
pub struct NewMessageRecord {
    pub owner_user_id: String,
    pub sender_user_id: String,
    pub source_type: String,
    pub source_id: String,
    pub content_json: String,
    pub quoted_message_id: Option<String>,
    pub created_at: u64,
}

/// A recorded protocol packet.
pub struct ProtocolPacketRecord {
    pub packet_id: String,
    pub bot_id: Option<String>,
    pub profile_id: Option<String>,
    pub protocol_type: String,
    pub direction: String,
    pub action_name: String,
    pub file_path: String,
    pub related_object_type: Option<String>,
    pub related_object_id: Option<String>,
    pub is_error: i32,
    pub session_id: Option<String>,
    pub created_at: i64,
}

/// An application setting as stored.
pub struct SettingRecord {
    pub setting_key: String,
    pub setting_value: String,
    pub value_type: String,
    pub description: Option<String>,
    pub updated_at: i64,
}

/// Private chats and temporary sessions are one-to-one scenes.
pub open spec fn private_scene(scene: Seq<char>) -> bool {
    scene == "private"@ || scene == "temp"@
}

/// Whether a scene is one-to-one (`private` or `temp`).
pub fn is_private_scene(scene: &str) -> (r: bool)
    ensures
        r == private_scene(scene@),
{
    str_equals(scene, "private") || str_equals(scene, "temp")
}

/// The conversation identifier of a one-to-one conversation: `{owner}:{scene}:{peer}`.
pub open spec fn private_conversation_id(owner: Seq<char>, scene: Seq<char>, peer: Seq<char>) -> Seq<char> {
    owner + ":"@ + scene + ":"@ + peer
}

/// The conversation identifier of a group conversation: `{owner}:group:{group}`.
pub open spec fn group_conversation_id(owner: Seq<char>, group: Seq<char>) -> Seq<char> {
    owner + ":group:"@ + group
}

/// Where a new message goes.
pub struct MessageRouting {
    pub is_private: bool,
    /// The other party of a one-to-one message.
    pub receiver_user_id: Option<String>,
    /// The group of a group message.
    pub group_id: Option<String>,
    /// The owner's conversation that the message updates.
    pub conversation_id: String,
}

/// Routes a message: in a one-to-one scene the receiver is the peer when the owner sent it and
/// the owner otherwise; in a group the group is the source. The conversation is the owner's.
pub fn message_routing(record: &NewMessageRecord) -> (r: MessageRouting)
    ensures
        r.is_private == private_scene(record.source_type@),
        opt_view(r.receiver_user_id) == (if private_scene(record.source_type@) {
            if record.sender_user_id@ == record.owner_user_id@ {
                Some(record.source_id@)
            } else {
                Some(record.owner_user_id@)
            }
        } else {
            None::<Seq<char>>
        }),
        opt_view(r.group_id) == (if private_scene(record.source_type@) {
            None::<Seq<char>>
        } else {
            Some(record.source_id@)
        }),
        r.conversation_id@ == message_conversation(
            record.owner_user_id@,
            record.source_type@,
            record.source_id@,
        ),
{
    let is_private = is_private_scene(record.source_type.as_str());
    let receiver_user_id = if is_private {
        if record.sender_user_id == record.owner_user_id {
            Some(record.source_id.clone())
        } else {
            Some(record.owner_user_id.clone())
        }
    } else {
        None
    };
    let group_id = if !is_private {
        Some(record.source_id.clone())
    } else {
        None
    };
    let conversation_id = if is_private {
        let mut s = String::from_str(record.owner_user_id.as_str());
        s.append(":");
        s.append(record.source_type.as_str());
        s.append(":");
        s.append(record.source_id.as_str());
        s
    } else {
        let mut s = String::from_str(record.owner_user_id.as_str());
        s.append(":group:");
        s.append(record.source_id.as_str());
        s
    };
    MessageRouting { is_private, receiver_user_id, group_id, conversation_id }
}

/// Which conversation row a pin or mute update writes, and the values it inserts.
pub struct ConversationFlagPlan {
    pub is_private: bool,
    pub conversation_id: String,
    /// The peer of a one-to-one conversation or the group of a group conversation (empty when
    /// none was given).
    pub counterpart: String,
    /// The pinned flag inserted with a new row.
    pub pinned: i64,
    /// The muted flag inserted with a new row.
    pub muted: i64,
}

/// `o`'s text, or the empty text.
pub open spec fn or_empty(o: Option<&str>) -> Seq<char> {
    match o {
        Some(s) => s@,
        None => Seq::empty(),
    }
}

/// Plans a pin (`flag_column` = `is_pinned`) or mute (any other column) update of the owner's
/// conversation in `scene` with a peer or a group.
pub fn conversation_flag_plan(
    owner_user_id: &str,
    scene: &str,
    peer_user_id: Option<&str>,
    group_id: Option<&str>,
    flag_column: &str,
    flag_value: bool,
) -> (r: ConversationFlagPlan)
    ensures
        r.is_private == private_scene(scene@),
        r.counterpart@ == (if private_scene(scene@) {
            or_empty(peer_user_id)
        } else {
            or_empty(group_id)
        }),
        r.conversation_id@ == flag_conversation(owner_user_id@, scene@, peer_user_id, group_id),
        flag_column@ == "is_pinned"@ ==> r.pinned == (if flag_value { 1i64 } else { 0i64 }) && r.muted == 0,
        flag_column@ != "is_pinned"@ ==> r.muted == (if flag_value { 1i64 } else { 0i64 }) && r.pinned == 0,
{
    let is_private = is_private_scene(scene);
    let flag_i: i64 = if flag_value { 1 } else { 0 };
    let (pinned, muted) = if str_equals(flag_column, "is_pinned") {
        (flag_i, 0)
    } else {
        (0, flag_i)
    };
    if is_private {
        let peer = match peer_user_id {
            Some(p) => p,
            None => "",
        };
        proof {
            reveal_strlit("");
        }
        let mut id = String::from_str(owner_user_id);
        id.append(":");
        id.append(scene);
        id.append(":");
        id.append(peer);
        ConversationFlagPlan { is_private, conversation_id: id, counterpart: String::from_str(peer), pinned, muted }
    } else {
        let group = match group_id {
            Some(g) => g,
            None => "",
        };
        proof {
            reveal_strlit("");
        }
        let mut id = String::from_str(owner_user_id);
        id.append(":group:");
        id.append(group);
        ConversationFlagPlan { is_private, conversation_id: id, counterpart: String::from_str(group), pinned, muted }
    }
}

/// The conversation that a stored message updates for its owner.
pub open spec fn message_conversation(owner: Seq<char>, scene: Seq<char>, source: Seq<char>) -> Seq<char> {
    if private_scene(scene) {
        private_conversation_id(owner, scene, source)
    } else {
        group_conversation_id(owner, source)
    }
}

/// The conversation that a pin or mute update writes.
pub open spec fn flag_conversation(
    owner: Seq<char>,
    scene: Seq<char>,
    peer: Option<&str>,
    group: Option<&str>,
) -> Seq<char> {
    if private_scene(scene) {
        private_conversation_id(owner, scene, or_empty(peer))
    } else {
        group_conversation_id(owner, or_empty(group))
    }
}

/// A message that the owner stores in a scene with a peer or group, and a later pin or mute of
/// that peer's or group's conversation in the same scene, touch the same conversation row.
pub proof fn law_message_and_flag_share_conversation(
    record: NewMessageRecord,
    routing: MessageRouting,
    peer: Option<&str>,
    group: Option<&str>,
    plan: ConversationFlagPlan,
)
    requires
        routing.conversation_id@ == message_conversation(
            record.owner_user_id@,
            record.source_type@,
            record.source_id@,
        ),
        plan.conversation_id@ == flag_conversation(
            record.owner_user_id@,
            record.source_type@,
            peer,
            group,
        ),
        private_scene(record.source_type@) ==> (peer matches Some(p) && p@ == record.source_id@),
        !private_scene(record.source_type@) ==> (group matches Some(g) && g@ == record.source_id@),
    ensures
        routing.conversation_id@ == plan.conversation_id@,
{
}

/// A value bound to a query placeholder.
#[derive(Debug, PartialEq, Eq)]
pub enum SqlBind {
    Text(String),
    Int(i64),
}

/// What a bound value stands for.
pub ghost enum BindModel {
    Text(Seq<char>),
    Int(int),
}

impl View for SqlBind {
    type V = BindModel;

    open spec fn view(&self) -> BindModel {
        match self {
            SqlBind::Text(s) => BindModel::Text(s@),
            SqlBind::Int(i) => BindModel::Int(*i as int),
        }
    }
}

/// The values of a list of binds.
pub open spec fn binds_view(binds: Seq<SqlBind>) -> Seq<BindModel> {
    binds.map_values(|b: SqlBind| b@)
}

/// A query text with `?` placeholders and the values bound to them, in order.
pub struct PacketQuery {
    pub sql: String,
    pub binds: Vec<SqlBind>,
}

/// `filters` with a condition on a text column added when a value is given.
pub open spec fn with_text(
    filters: Seq<(Seq<char>, BindModel)>,
    value: Option<Seq<char>>,
    cond: Seq<char>,
) -> Seq<(Seq<char>, BindModel)> {
    match value {
        Some(v) => filters.push((cond, BindModel::Text(v))),
        None => filters,
    }
}

/// `filters` with a condition on the creation time added when a time is given; the time is
/// bound as a signed 64-bit integer.
pub open spec fn with_time(
    filters: Seq<(Seq<char>, BindModel)>,
    value: Option<u64>,
    cond: Seq<char>,
) -> Seq<(Seq<char>, BindModel)> {
    match value {
        Some(v) => filters.push((cond, BindModel::Int((v as i64) as int))),
        None => filters,
    }
}

/// `filters` with the condition on the error flag added when one is given (1 for errors,
/// 0 for the others).
pub open spec fn with_error_flag(
    filters: Seq<(Seq<char>, BindModel)>,
    value: Option<bool>,
) -> Seq<(Seq<char>, BindModel)> {
    match value {
        Some(e) => filters.push(("is_error = "@, BindModel::Int(if e { 1 } else { 0 }))),
        None => filters,
    }
}

/// The packet filters that are set, in the order in which they are applied: each condition's
/// text before its placeholder, and the value bound to it.
pub open spec fn packet_filters(
    bot_id: Option<Seq<char>>,
    direction: Option<Seq<char>>,
    action_name: Option<Seq<char>>,
    since: Option<u64>,
    until: Option<u64>,
    is_error: Option<bool>,
    before: Option<u64>,
) -> Seq<(Seq<char>, BindModel)> {
    let f = with_text(Seq::empty(), bot_id, "bot_id = "@);
    let f = with_text(f, direction, "direction = "@);
    let f = with_text(f, action_name, "action_name = "@);
    let f = with_time(f, since, "created_at >= "@);
    let f = with_time(f, until, "created_at <= "@);
    let f = with_error_flag(f, is_error);
    with_time(f, before, "created_at < "@)
}

/// The start of every packet listing.
pub open spec fn packet_head() -> Seq<char> {
    "SELECT * FROM protocol_packets"@
}

/// The conditions of a listing: the first after ` WHERE `, each further one after ` AND `,
/// each followed by its placeholder.
pub open spec fn filter_sql(filters: Seq<(Seq<char>, BindModel)>) -> Seq<char>
    decreases filters.len(),
{
    if filters.len() == 0 {
        Seq::empty()
    } else {
        filter_sql(filters.drop_last()) + (if filters.len() == 1 {
            " WHERE "@
        } else {
            " AND "@
        }) + filters.last().0 + "?"@
    }
}

/// The values bound to the conditions, in order.
pub open spec fn filter_binds(filters: Seq<(Seq<char>, BindModel)>) -> Seq<BindModel> {
    filters.map_values(|f: (Seq<char>, BindModel)| f.1)
}

/// The most packets one listing returns.
pub const MAX_PACKET_PAGE: i64 = 1000;

/// Appends one condition and its value to a listing under construction.
fn push_filter(
    sql: &mut String,
    binds: &mut Vec<SqlBind>,
    Ghost(filters): Ghost<Seq<(Seq<char>, BindModel)>>,
    cond: &str,
    bind: SqlBind,
)
    requires
        old(sql)@ == packet_head() + filter_sql(filters),
        binds_view(old(binds)@) == filter_binds(filters),
    ensures
        final(sql)@ == packet_head() + filter_sql(filters.push((cond@, bind@))),
        binds_view(final(binds)@) == filter_binds(filters.push((cond@, bind@))),
{
    proof {
        reveal_strlit(" WHERE ");
        reveal_strlit(" AND ");
        reveal_strlit("?");
        assert(binds.len() == filters.len()) by {
            assert(binds_view(binds@).len() == binds@.len());
        }
        assert(filters.push((cond@, bind@)).drop_last() =~= filters);
    }
    let ghost b = bind@;
    let ghost bv = bind;
    let ghost old_binds = binds@;
    if binds.len() == 0 {
        sql.append(" WHERE ");
    } else {
        sql.append(" AND ");
    }
    sql.append(cond);
    sql.append("?");
    binds.push(bind);
    proof {
        assert(binds@ == old_binds.push(bv));
        assert(binds_view(binds@) =~= binds_view(old_binds).push(b));
        assert(filter_binds(filters.push((cond@, b))) =~= filter_binds(filters).push(b));
        assert(binds_view(binds@) =~= filter_binds(filters.push((cond@, b))));
        assert(sql@ =~= packet_head() + filter_sql(filters.push((cond@, b))));
    }
}

/// Adds the condition on a text column when a value is given.
fn add_text_filter(
    sql: &mut String,
    binds: &mut Vec<SqlBind>,
    Ghost(filters): Ghost<Seq<(Seq<char>, BindModel)>>,
    value: Option<&str>,
    cond: &str,
)
    requires
        old(sql)@ == packet_head() + filter_sql(filters),
        binds_view(old(binds)@) == filter_binds(filters),
    ensures
        final(sql)@ == packet_head() + filter_sql(with_text(filters, opt_str_view(value), cond@)),
        binds_view(final(binds)@) == filter_binds(with_text(filters, opt_str_view(value), cond@)),
{
    if let Some(v) = value {
        push_filter(sql, binds, Ghost(filters), cond, SqlBind::Text(String::from_str(v)));
    }
}

/// Adds a condition on the creation time when a time is given.
fn add_time_filter(
    sql: &mut String,
    binds: &mut Vec<SqlBind>,
    Ghost(filters): Ghost<Seq<(Seq<char>, BindModel)>>,
    value: Option<u64>,
    cond: &str,
)
    requires
        old(sql)@ == packet_head() + filter_sql(filters),
        binds_view(old(binds)@) == filter_binds(filters),
    ensures
        final(sql)@ == packet_head() + filter_sql(with_time(filters, value, cond@)),
        binds_view(final(binds)@) == filter_binds(with_time(filters, value, cond@)),
{
    if let Some(v) = value {
        push_filter(sql, binds, Ghost(filters), cond, SqlBind::Int(v as i64));
    }
}

/// Adds the condition on the error flag when one is given.
fn add_error_filter(
    sql: &mut String,
    binds: &mut Vec<SqlBind>,
    Ghost(filters): Ghost<Seq<(Seq<char>, BindModel)>>,
    value: Option<bool>,
)
    requires
        old(sql)@ == packet_head() + filter_sql(filters),
        binds_view(old(binds)@) == filter_binds(filters),
    ensures
        final(sql)@ == packet_head() + filter_sql(with_error_flag(filters, value)),
        binds_view(final(binds)@) == filter_binds(with_error_flag(filters, value)),
{
    if let Some(e) = value {
        let flag: i64 = if e { 1 } else { 0 };
        push_filter(sql, binds, Ghost(filters), "is_error = ", SqlBind::Int(flag));
        proof {
            reveal_strlit("is_error = ");
        }
    }
}

/// Closes a listing: newest first, and a bound on the number of rows.
fn finish_packet_query(
    sql: String,
    binds: Vec<SqlBind>,
    Ghost(filters): Ghost<Seq<(Seq<char>, BindModel)>>,
    limit: i64,
) -> (r: PacketQuery)
    requires
        sql@ == packet_head() + filter_sql(filters),
        binds_view(binds@) == filter_binds(filters),
    ensures
        r.sql@ == packet_head() + filter_sql(filters) + " ORDER BY created_at DESC LIMIT ?"@,
        binds_view(r.binds@) == filter_binds(filters).push(
            BindModel::Int(if limit < 1000 { limit as int } else { 1000 }),
        ),
{
    let mut sql = sql;
    let mut binds = binds;
    sql.append(" ORDER BY created_at DESC LIMIT ?");
    let capped: i64 = if limit < MAX_PACKET_PAGE { limit } else { MAX_PACKET_PAGE };
    let ghost before_push = binds@;
    binds.push(SqlBind::Int(capped));
    proof {
        assert(binds@ == before_push.push(SqlBind::Int(capped)));
        assert(binds_view(binds@) =~= binds_view(before_push).push(BindModel::Int(capped as int)));
    }
    PacketQuery { sql, binds }
}

/// The listing of recorded packets, newest first, that match the filters that are given, at
/// most `min(limit, 1000)` of them (and an older page when `before` is given).
pub fn packet_list_query(
    bot_id: Option<&str>,
    direction: Option<&str>,
    action_name: Option<&str>,
    since: Option<u64>,
    until: Option<u64>,
    is_error: Option<bool>,
    before: Option<u64>,
    limit: i64,
) -> (r: PacketQuery)
    ensures
        ({
            let filters = packet_filters(
                opt_str_view(bot_id),
                opt_str_view(direction),
                opt_str_view(action_name),
                since,
                until,
                is_error,
                before,
            );
            &&& r.sql@ == packet_head() + filter_sql(filters) + " ORDER BY created_at DESC LIMIT ?"@
            &&& binds_view(r.binds@) == filter_binds(filters).push(
                BindModel::Int(if limit < 1000 { limit as int } else { 1000 }),
            )
        }),
{
    let mut sql = String::from_str("SELECT * FROM protocol_packets");
    let mut binds: Vec<SqlBind> = Vec::new();
    let ghost f0: Seq<(Seq<char>, BindModel)> = Seq::empty();
    proof {
        reveal_strlit("SELECT * FROM protocol_packets");
        reveal_strlit("bot_id = ");
        reveal_strlit("direction = ");
        reveal_strlit("action_name = ");
        reveal_strlit("created_at >= ");
        reveal_strlit("created_at <= ");
        reveal_strlit("created_at < ");
        assert(sql@ =~= packet_head() + filter_sql(f0));
        assert(binds_view(binds@) =~= filter_binds(f0));
    }
    add_text_filter(&mut sql, &mut binds, Ghost(f0), bot_id, "bot_id = ");
    let ghost f1 = with_text(f0, opt_str_view(bot_id), "bot_id = "@);
    add_text_filter(&mut sql, &mut binds, Ghost(f1), direction, "direction = ");
    let ghost f2 = with_text(f1, opt_str_view(direction), "direction = "@);
    add_text_filter(&mut sql, &mut binds, Ghost(f2), action_name, "action_name = ");
    let ghost f3 = with_text(f2, opt_str_view(action_name), "action_name = "@);
    add_time_filter(&mut sql, &mut binds, Ghost(f3), since, "created_at >= ");
    let ghost f4 = with_time(f3, since, "created_at >= "@);
    add_time_filter(&mut sql, &mut binds, Ghost(f4), until, "created_at <= ");
    let ghost f5 = with_time(f4, until, "created_at <= "@);
    add_error_filter(&mut sql, &mut binds, Ghost(f5), is_error);
    let ghost f6 = with_error_flag(f5, is_error);
    add_time_filter(&mut sql, &mut binds, Ghost(f6), before, "created_at < ");
    let ghost f7 = with_time(f6, before, "created_at < "@);
    finish_packet_query(sql, binds, Ghost(f7), limit)
}

/// The number of `?` placeholders in a query text.
pub open spec fn placeholder_count(s: Seq<char>) -> nat
    decreases s.len(),
{
    if s.len() == 0 {
        0
    } else {
        placeholder_count(s.drop_last()) + (if s.last() == '?' {
            1nat
        } else {
            0nat
        })
    }
}

proof fn lemma_placeholder_count_concat(a: Seq<char>, b: Seq<char>)
    ensures
        placeholder_count(a + b) == placeholder_count(a) + placeholder_count(b),
    decreases b.len(),
{
    if b.len() > 0 {
        lemma_placeholder_count_concat(a, b.drop_last());
        assert((a + b).drop_last() =~= a + b.drop_last());
    } else {
        assert(a + b =~= a);
    }
}

proof fn lemma_no_placeholder(s: Seq<char>)
    requires
        forall|k: int| 0 <= k < s.len() ==> s[k] != '?',
    ensures
        placeholder_count(s) == 0,
    decreases s.len(),
{
    if s.len() > 0 {
        lemma_no_placeholder(s.drop_last());
    }
}

/// The condition texts that a packet listing may use; none holds a `?`.
pub open spec fn known_packet_condition(c: Seq<char>) -> bool {
    ||| c == "bot_id = "@
    ||| c == "direction = "@
    ||| c == "action_name = "@
    ||| c == "created_at >= "@
    ||| c == "created_at <= "@
    ||| c == "is_error = "@
    ||| c == "created_at < "@
}

proof fn lemma_known_conditions_have_no_placeholder(c: Seq<char>)
    requires
        known_packet_condition(c),
    ensures
        placeholder_count(c) == 0,
{
    reveal_strlit("bot_id = ");
    reveal_strlit("direction = ");
    reveal_strlit("action_name = ");
    reveal_strlit("created_at >= ");
    reveal_strlit("created_at <= ");
    reveal_strlit("is_error = ");
    reveal_strlit("created_at < ");
    lemma_no_placeholder(c);
}

proof fn lemma_filter_sql_placeholders(filters: Seq<(Seq<char>, BindModel)>)
    requires
        forall|k: int| 0 <= k < filters.len() ==> known_packet_condition(#[trigger] filters[k].0),
    ensures
        placeholder_count(filter_sql(filters)) == filters.len(),
    decreases filters.len(),
{
    reveal_strlit(" WHERE ");
    reveal_strlit(" AND ");
    reveal_strlit("?");
    if filters.len() > 0 {
        let init = filters.drop_last();
        assert forall|k: int| 0 <= k < init.len() implies known_packet_condition(#[trigger] init[k].0) by {
            assert(init[k] == filters[k]);
        }
        lemma_filter_sql_placeholders(init);
        let sep = if filters.len() == 1 {
            " WHERE "@
        } else {
            " AND "@
        };
        lemma_no_placeholder(sep);
        lemma_known_conditions_have_no_placeholder(filters.last().0);
        lemma_placeholder_count_concat(filter_sql(init), sep);
        lemma_placeholder_count_concat(filter_sql(init) + sep, filters.last().0);
        lemma_placeholder_count_concat(filter_sql(init) + sep + filters.last().0, "?"@);
        assert(placeholder_count("?"@) == 1) by {
            reveal_strlit("?");
            assert("?"@.len() == 1);
            assert("?"@[0] == '?');
            assert("?"@.drop_last() =~= Seq::<char>::empty());
            assert(placeholder_count(Seq::<char>::empty()) == 0);
        }
    }
}

/// Every placeholder of a packet listing gets exactly one value: the query text built for any
/// filters holds as many `?` as there are values bound to it.
pub proof fn law_packet_placeholders_match_binds(
    bot_id: Option<Seq<char>>,
    direction: Option<Seq<char>>,
    action_name: Option<Seq<char>>,
    since: Option<u64>,
    until: Option<u64>,
    is_error: Option<bool>,
    before: Option<u64>,
    limit_bind: BindModel,
)
    ensures
        ({
            let filters = packet_filters(bot_id, direction, action_name, since, until, is_error, before);
            placeholder_count(packet_head() + filter_sql(filters) + " ORDER BY created_at DESC LIMIT ?"@)
                == filter_binds(filters).push(limit_bind).len()
        }),
{
    let filters = packet_filters(bot_id, direction, action_name, since, until, is_error, before);
    assert forall|k: int| 0 <= k < filters.len() implies known_packet_condition(#[trigger] filters[k].0) by {
        let f = with_text(Seq::empty(), bot_id, "bot_id = "@);
        let f = with_text(f, direction, "direction = "@);
        let f = with_text(f, action_name, "action_name = "@);
        let f = with_time(f, since, "created_at >= "@);
        let f = with_time(f, until, "created_at <= "@);
        let f = with_error_flag(f, is_error);
        assert(filters == with_time(f, before, "created_at < "@));
    }
    lemma_filter_sql_placeholders(filters);
    reveal_strlit("SELECT * FROM protocol_packets");
    reveal_strlit(" ORDER BY created_at DESC LIMIT ?");
    lemma_no_placeholder(packet_head());
    let tail = " ORDER BY created_at DESC LIMIT ?"@;
    lemma_no_placeholder(tail.drop_last());
    lemma_placeholder_count_concat(packet_head(), filter_sql(filters));
    lemma_placeholder_count_concat(packet_head() + filter_sql(filters), tail);
}

/// The view of an optional text.
pub open spec fn opt_str_view(o: Option<&str>) -> Option<Seq<char>> {
    match o {
        Some(s) => Some(s@),
        None => None,
    }
}

/// The value of a signed decimal integer as `i64::from_str` reads it: an optional `+` or `-`
/// followed by at least one ASCII digit, within the range of `i64`; `None` for any other text.
pub open spec fn i64_text_value(s: Seq<char>) -> Option<int> {
    let neg = s.len() > 0 && s[0] == '-';
    let ds = if s.len() > 0 && (s[0] == '-' || s[0] == '+') {
        s.drop_first()
    } else {
        s
    };
    if !all_digits(ds) {
        None
    } else {
        let v: int = if neg {
            -(digits_value(ds) as int)
        } else {
            digits_value(ds) as int
        };
        if i64::MIN <= v && v <= i64::MAX {
            Some(v)
        } else {
            None
        }
    }
}

/// `s.parse::<i64>()`, as its documentation states it: an optional sign followed by digits
/// only, whose value fits in `i64`; any other text is an error.
#[verifier::external_body]
fn parse_i64(s: &str) -> (r: Option<i64>)
    ensures
        match r {
            Some(v) => i64_text_value(s@) == Some(v as int),
            None => i64_text_value(s@) is None,
        },
{
    s.parse::<i64>().ok()
}

/// `n` written in decimal, with a leading `-` when it is negative.
pub open spec fn i64_text(n: int) -> Seq<char> {
    if n < 0 {
        "-"@ + decimal((-n) as nat)
    } else {
        decimal(n as nat)
    }
}

/// The text an integer setting is stored as.
pub fn i64_setting_text(value: i64) -> (r: String)
    ensures
        r@ == i64_text(value as int),
{
    if value < 0 {
        let magnitude: u64 = if value == i64::MIN {
            9223372036854775808u64
        } else {
            (-value) as u64
        };
        let digits = u64_to_decimal(magnitude);
        let r = concat_str("-", digits.as_str());
        proof {
            reveal_strlit("-");
        }
        r
    } else {
        u64_to_decimal(value as u64)
    }
}

/// The text a flag setting is stored as.
pub open spec fn bool_text(value: bool) -> Seq<char> {
    if value {
        "true"@
    } else {
        "false"@
    }
}

/// The text a flag setting is stored as: `true` or `false`.
pub fn bool_setting_text(value: bool) -> (r: &'static str)
    ensures
        r@ == bool_text(value),
{
    if value {
        "true"
    } else {
        "false"
    }
}

/// The texts read as a set flag.
pub open spec fn truthy(s: Seq<char>) -> bool {
    s == "true"@ || s == "1"@ || s == "yes"@
}

/// A text setting: the stored text, or `default` when none is stored or it cannot be read.
pub fn setting_string_value(stored: Option<&str>, default: &str) -> (r: String)
    ensures
        r@ == (match stored {
            Some(v) => v@,
            None => default@,
        }),
{
    match stored {
        Some(v) => String::from_str(v),
        None => String::from_str(default),
    }
}

/// An integer setting: the stored text read as an `i64`, or `default` when none is stored,
/// it cannot be read, or it is not such a number.
pub fn setting_i64_value(stored: Option<&str>, default: i64) -> (r: i64)
    ensures
        r as int == (match stored {
            Some(v) => match i64_text_value(v@) {
                Some(n) => n,
                None => default as int,
            },
            None => default as int,
        }),
{
    match stored {
        Some(v) => match parse_i64(v) {
            Some(n) => n,
            None => default,
        },
        None => default,
    }
}

/// A flag setting: set when the stored text is `true`, `1` or `yes`, unset for any other
/// stored text, and `default` when none is stored or it cannot be read.
pub fn setting_bool_value(stored: Option<&str>, default: bool) -> (r: bool)
    ensures
        r == (match stored {
            Some(v) => truthy(v@),
            None => default,
        }),
{
    match stored {
        Some(v) => str_equals(v, "true") || str_equals(v, "1") || str_equals(v, "yes"),
        None => default,
    }
}

/// Decimal digits are digits, and read back as the number they were written from.
pub proof fn lemma_decimal_reads_back(n: nat)
    ensures
        all_digits(decimal(n)),
        digits_value(decimal(n)) == n,
    decreases n,
{
    if n >= 10 {
        lemma_decimal_reads_back(n / 10);
        let d = decimal(n);
        assert(d.drop_last() =~= decimal(n / 10));
        assert forall|k: int| 0 <= k < d.len() implies '0' <= #[trigger] d[k] && d[k] <= '9' by {
            if k < d.len() - 1 {
                assert(d[k] == decimal(n / 10)[k]);
            }
        }
        assert(d.last() == (48 + n % 10) as char);
        assert((d.last() as u32) == 48 + n % 10);
        assert(digits_value(d) == digits_value(decimal(n / 10)) * 10 + n % 10);
        assert((n / 10) * 10 + n % 10 == n);
    } else {
        let d = decimal(n);
        assert(d =~= seq![(48 + n) as char]);
        assert(d.drop_last() =~= Seq::<char>::empty());
        assert((d.last() as u32) == 48 + n);
        assert(digits_value(d.drop_last()) == 0);
        assert(digits_value(d) == n);
        assert('0' <= d[0] && d[0] <= '9');
    }
}

proof fn lemma_decimal_first_digit(n: nat)
    ensures
        decimal(n).len() > 0,
        n > 0 ==> decimal(n)[0] != '0',
    decreases n,
{
    if n >= 10 {
        lemma_decimal_first_digit(n / 10);
        assert(decimal(n)[0] == decimal(n / 10)[0]);
    } else {
        assert(decimal(n) =~= seq![(48 + n) as char]);
        assert((decimal(n)[0] as u32) == 48 + n);
    }
}

/// A number is written in decimal the canonical way: a non-empty run of the ASCII digits `0`
/// through `9`, read left to right as the number itself, with no leading zero (zero itself is
/// the single digit `0`).
pub proof fn law_decimal_is_canonical(n: nat)
    ensures
        decimal(n).len() > 0,
        forall|k: int| 0 <= k < decimal(n).len() ==> '0' <= #[trigger] decimal(n)[k] && decimal(n)[k] <= '9',
        digits_value(decimal(n)) == n,
        n > 0 ==> decimal(n)[0] != '0',
        n == 0 ==> decimal(n) == seq!['0'],
{
    lemma_decimal_reads_back(n);
    lemma_decimal_first_digit(n);
    if n == 0 {
        assert(decimal(0) =~= seq!['0']);
    }
}

/// An integer setting is stored the way `i64::to_string` writes it: a `-` exactly when the
/// value is negative, then the digits of its magnitude with no leading zero, and nothing else.
pub proof fn law_i64_text_is_plain_decimal(value: i64)
    ensures
        i64_text(value as int).len() > 0,
        (i64_text(value as int)[0] == '-') == (value < 0),
        value < 0 ==> i64_text(value as int).drop_first() == decimal((-(value as int)) as nat),
        value >= 0 ==> i64_text(value as int) == decimal(value as nat),
        forall|k: int|
            (if value < 0 { 1int } else { 0int }) <= k < i64_text(value as int).len() ==> '0' <= #[trigger] i64_text(
                value as int,
            )[k] && i64_text(value as int)[k] <= '9',
{
    reveal_strlit("-");
    if value < 0 {
        let m = (-(value as int)) as nat;
        law_decimal_is_canonical(m);
        let t = i64_text(value as int);
        assert(t.drop_first() =~= decimal(m));
        assert forall|k: int| 1 <= k < t.len() implies '0' <= #[trigger] t[k] && t[k] <= '9' by {
            assert(t[k] == decimal(m)[k - 1]);
        }
    } else {
        law_decimal_is_canonical(value as nat);
    }
}

/// An integer setting reads back as the value written: the text that `i64_setting_text` stores
/// is read by `setting_i64_value` as that same number, whatever the default.
pub proof fn law_i64_setting_round_trip(value: i64)
    ensures
        i64_text_value(i64_text(value as int)) == Some(value as int),
{
    reveal_strlit("-");
    if value < 0 {
        let m = (-(value as int)) as nat;
        lemma_decimal_reads_back(m);
        let t = i64_text(value as int);
        assert(t.drop_first() =~= decimal(m));
        assert(t[0] == '-');
    } else {
        let m = value as nat;
        lemma_decimal_reads_back(m);
        let t = decimal(m);
        assert('0' <= t[0] && t[0] <= '9');
    }
}

/// A flag setting reads back as the value written.
pub proof fn law_bool_setting_round_trip(value: bool)
    ensures
        truthy(bool_text(value)) == value,
{
    reveal_strlit("true");
    reveal_strlit("false");
    reveal_strlit("1");
    reveal_strlit("yes");
    if !value {
        assert("false"@ != "true"@) by {
            assert("false"@[0] != "true"@[0]);
        }
        assert("false"@.len() != "1"@.len());
        assert("false"@.len() != "yes"@.len());
    }
}

/// The user who becomes a member when a request is handled with `state`: on acceptance, the
/// initiator of a join request or the target of an invitation (none when the invitation names
/// no target); nobody otherwise, and nobody when that identifier is empty.
pub open spec fn joined_user(state: RequestState, request: GroupRequestEntity) -> Option<Seq<char>> {
    if state is Accepted {
        let user = match request.request_type {
            GroupRequestType::Join => request.initiator_user_id@,
            GroupRequestType::Invite => match request.target_user_id {
                Some(t) => t@,
                None => Seq::empty(),
            },
        };
        if user.len() == 0 {
            None
        } else {
            Some(user)
        }
    } else {
        None
    }
}

/// Who joins the group when the pending request `handled` is handled with `state`.
pub fn accepted_join_user(state: RequestState, handled: &GroupRequestEntity) -> (r: Option<String>)
    ensures
        opt_view(r) == joined_user(state, *handled),
{
    match state {
        RequestState::Accepted => {
            let user: &str = match handled.request_type {
                GroupRequestType::Join => handled.initiator_user_id.as_str(),
                GroupRequestType::Invite => match &handled.target_user_id {
                    Some(t) => t.as_str(),
                    None => "",
                },
            };
            proof {
                reveal_strlit("");
            }
            if user.unicode_len() == 0 {
                None
            } else {
                Some(String::from_str(user))
            }
        },
        _ => None,
    }
}

/// The parent of a folder as stored: none for the empty text and for `/`, the root.
pub open spec fn stored_parent(parent: Seq<char>) -> Option<Seq<char>> {
    if parent.len() == 0 || parent == "/"@ {
        None
    } else {
        Some(parent)
    }
}

/// The parent folder column written for a folder whose parent is given as `parent`.
pub fn normalize_parent_folder(parent: &str) -> (r: Option<String>)
    ensures
        opt_view(r) == stored_parent(parent@),
{
    proof {
        reveal_strlit("/");
    }
    if parent.unicode_len() == 0 || str_equals(parent, "/") {
        None
    } else {
        Some(String::from_str(parent))
    }
}

/// A parent folder belongs to the group when its lookup found it in that group.
pub fn parent_in_group(group_id: &str, parent_group_id: Option<&str>) -> (r: bool)
    ensures
        r == (parent_group_id matches Some(g) && g@ == group_id@),
{
    match parent_group_id {
        Some(g) => str_equals(g, group_id),
        None => false,
    }
}

/// Why a folder cannot be placed under a parent.
#[derive(Debug, Clone, Copy, PartialEq, Eq, Structural)]
pub enum FolderParentError {
    /// The folder is named as its own parent.
    OwnParent,
    /// No folder of the same group has the parent's identifier.
    ParentNotInGroup,
    /// The parent lies inside the folder itself.
    ParentIsDescendant,
}

/// The verdict on placing folder `folder_id` of group `group_id` under `parent`, given where
/// the lookup found the parent (`parent_group_id`) and whether the parent is a descendant of
/// the folder. The checks run in that order; without a parent every placement is allowed.
pub open spec fn folder_parent_verdict(
    folder_id: Seq<char>,
    group_id: Seq<char>,
    parent: Option<Seq<char>>,
    parent_group_id: Option<Seq<char>>,
    parent_is_descendant: bool,
) -> Option<FolderParentError> {
    match parent {
        None => None,
        Some(p) => if p == folder_id {
            Some(FolderParentError::OwnParent)
        } else if parent_group_id != Some(group_id) {
            Some(FolderParentError::ParentNotInGroup)
        } else if parent_is_descendant {
            Some(FolderParentError::ParentIsDescendant)
        } else {
            None
        },
    }
}

/// Checks the placement of a folder under its parent folder.
pub fn folder_parent_error(
    folder_id: &str,
    group_id: &str,
    parent: Option<&str>,
    parent_group_id: Option<&str>,
    parent_is_descendant: bool,
) -> (r: Option<FolderParentError>)
    ensures
        r == folder_parent_verdict(
            folder_id@,
            group_id@,
            opt_str_view(parent),
            opt_str_view(parent_group_id),
            parent_is_descendant,
        ),
{
    match parent {
        None => None,
        Some(p) => if str_equals(p, folder_id) {
            Some(FolderParentError::OwnParent)
        } else if !parent_in_group(group_id, parent_group_id) {
            Some(FolderParentError::ParentNotInGroup)
        } else if parent_is_descendant {
            Some(FolderParentError::ParentIsDescendant)
        } else {
            None
        },
    }
}

/// The folder `n` parent links above `x` in a group whose folders have the parents `parents`
/// (a folder without an entry lies at the root); `None` when the chain ends sooner.
pub open spec fn ancestor_at(parents: Map<Seq<char>, Seq<char>>, x: Seq<char>, n: nat) -> Option<Seq<char>>
    decreases n,
{
    if n == 0 {
        Some(x)
    } else {
        match ancestor_at(parents, x, (n - 1) as nat) {
            Some(y) => if parents.contains_key(y) {
                Some(parents[y])
            } else {
                None
            },
            None => None,
        }
    }
}

/// No folder lies inside itself: following parent links never leads back to the start.
pub open spec fn folders_acyclic(parents: Map<Seq<char>, Seq<char>>) -> bool {
    forall|x: Seq<char>, n: nat| n >= 1 ==> #[trigger] ancestor_at(parents, x, n) != Some(x)
}

/// `p` lies inside folder `f`: `f` is reached from `p` by following one or more parent links.
pub open spec fn folder_descendant(parents: Map<Seq<char>, Seq<char>>, p: Seq<char>, f: Seq<char>) -> bool {
    exists|n: nat| n >= 1 && #[trigger] ancestor_at(parents, p, n) == Some(f)
}

proof fn lemma_ancestor_compose(parents: Map<Seq<char>, Seq<char>>, x: Seq<char>, a: nat, b: nat)
    ensures
        ancestor_at(parents, x, a + b) == (match ancestor_at(parents, x, a) {
            Some(y) => ancestor_at(parents, y, b),
            None => None,
        }),
    decreases b,
{
    if b > 0 {
        lemma_ancestor_compose(parents, x, a, (b - 1) as nat);
        assert((a + b - 1) as nat == a + (b - 1) as nat);
        if ancestor_at(parents, x, a) is None {
            lemma_ancestor_none_stays(parents, x, a, (a + b) as nat);
        }
    }
}

proof fn lemma_ancestor_none_stays(parents: Map<Seq<char>, Seq<char>>, x: Seq<char>, a: nat, m: nat)
    requires
        a <= m,
        ancestor_at(parents, x, a) is None,
    ensures
        ancestor_at(parents, x, m) is None,
    decreases m - a,
{
    if a < m {
        lemma_ancestor_none_stays(parents, x, a, (m - 1) as nat);
    }
}

/// A chain that never stops at `f` before step `k` is the same with or without `f`'s new link.
proof fn lemma_chain_avoiding(
    parents: Map<Seq<char>, Seq<char>>,
    f: Seq<char>,
    p: Seq<char>,
    y: Seq<char>,
    k: nat,
)
    requires
        forall|j: nat| j < k ==> #[trigger] ancestor_at(parents.insert(f, p), y, j) != Some(f),
    ensures
        ancestor_at(parents.insert(f, p), y, k) == ancestor_at(parents, y, k),
    decreases k,
{
    if k > 0 {
        lemma_chain_avoiding(parents, f, p, y, (k - 1) as nat);
        assert(ancestor_at(parents.insert(f, p), y, (k - 1) as nat) != Some(f));
    }
}

/// The first step at which a chain reaches `t`.
proof fn lemma_first_hit(parents: Map<Seq<char>, Seq<char>>, y: Seq<char>, t: Seq<char>, m: nat) -> (k: nat)
    requires
        ancestor_at(parents, y, m) == Some(t),
    ensures
        k <= m,
        ancestor_at(parents, y, k) == Some(t),
        forall|j: nat| j < k ==> #[trigger] ancestor_at(parents, y, j) != Some(t),
    decreases m,
{
    if exists|j: nat| j < m && #[trigger] ancestor_at(parents, y, j) == Some(t) {
        let j = choose|j: nat| j < m && #[trigger] ancestor_at(parents, y, j) == Some(t);
        lemma_first_hit(parents, y, t, j)
    } else {
        m
    }
}

/// Placing a folder under a parent that the checks accept keeps the folders of a group free
/// of cycles: when the parent is not the folder itself and does not lie inside it, no folder
/// ends up inside itself.
pub proof fn law_accepted_parent_keeps_folders_acyclic(
    parents: Map<Seq<char>, Seq<char>>,
    folder_id: Seq<char>,
    group_id: Seq<char>,
    parent: Seq<char>,
)
    requires
        folders_acyclic(parents),
        folder_parent_verdict(
            folder_id,
            group_id,
            Some(parent),
            Some(group_id),
            folder_descendant(parents, parent, folder_id),
        ) is None,
    ensures
        folders_acyclic(parents.insert(folder_id, parent)),
{
    let f = folder_id;
    let p = parent;
    let np = parents.insert(f, p);
    assert(p != f);
    assert(!folder_descendant(parents, p, f));
    assert forall|x: Seq<char>, n: nat| n >= 1 implies #[trigger] ancestor_at(np, x, n) != Some(x) by {
        if ancestor_at(np, x, n) == Some(x) {
            if exists|j: nat| j < n && #[trigger] ancestor_at(np, x, j) == Some(f) {
                let j0 = choose|j: nat| j < n && #[trigger] ancestor_at(np, x, j) == Some(f);
                let i = lemma_first_hit(np, x, f, j0);
                // One step after `f` comes `p`.
                assert(ancestor_at(np, x, i + 1) == Some(p));
                // Going round the cycle once more from step `i` leads back to `f`.
                lemma_ancestor_compose(np, x, n, i);
                assert(ancestor_at(np, x, n + i) == Some(f));
                lemma_ancestor_compose(np, x, i + 1, (n - 1) as nat);
                assert((i + 1 + (n - 1)) as nat == n + i);
                assert(ancestor_at(np, p, (n - 1) as nat) == Some(f));
                let k = lemma_first_hit(np, p, f, (n - 1) as nat);
                lemma_chain_avoiding(parents, f, p, p, k);
                assert(ancestor_at(parents, p, k) == Some(f));
                if k == 0 {
                    assert(p == f);
                } else {
                    assert(folder_descendant(parents, p, f));
                }
            } else {
                lemma_chain_avoiding(parents, f, p, x, n);
                assert(ancestor_at(parents, x, n) == Some(x));
            }
        }
    }
}

/// `sqlx::Error::RowNotFound`. The resulting error is opaque to proofs.
#[verifier::external_body]
fn row_not_found() -> sqlx::Error {
    sqlx::Error::RowNotFound
}

impl FolderParentError {
    /// The database error that reports this refusal: a protocol error saying `folder cannot be
    /// its own parent` or `folder parent cannot be a descendant of itself`, or "row not found"
    /// for a parent outside the group.
    pub fn into_sqlx_error(self) -> sqlx::Error {
        match self {
            FolderParentError::OwnParent => protocol_error(
                String::from_str("folder cannot be its own parent"),
            ),
            FolderParentError::ParentNotInGroup => row_not_found(),
            FolderParentError::ParentIsDescendant => protocol_error(
                String::from_str("folder parent cannot be a descendant of itself"),
            ),
        }
    }
}

/// A folder may be deleted only when it holds no file and no child folder.
pub fn folder_deletable(file_count: i64, child_folder_count: i64) -> (r: bool)
    ensures
        r == (file_count <= 0 && child_folder_count <= 0),
{
    !(file_count > 0 || child_folder_count > 0)
}

/// After a photo is deleted, its album's cover is chosen again only when the cover was that
/// photo.
pub fn cover_needs_refresh(cover_url: Option<&str>, deleted_url: &str) -> (r: bool)
    ensures
        r == (cover_url matches Some(c) && c@ == deleted_url@),
{
    match cover_url {
        Some(c) => str_equals(c, deleted_url),
        None => false,
    }
}

/// What unsetting an essence message reports: the message and the people involved, with no
/// essence identifier and the flag unset.
pub fn unset_essence(
    group_id: &str,
    message_id: &str,
    sender_user_id: &str,
    operator_user_id: &str,
    created_at: u64,
) -> (r: GroupEssenceMessageEntity)
    ensures
        r.essence_id@ == Seq::<char>::empty(),
        r.group_id@ == group_id@,
        r.message_id@ == message_id@,
        r.sender_user_id@ == sender_user_id@,
        r.operator_user_id@ == operator_user_id@,
        !r.is_set,
        r.created_at == created_at,
{
    GroupEssenceMessageEntity {
        essence_id: String::new(),
        group_id: String::from_str(group_id),
        message_id: String::from_str(message_id),
        sender_user_id: String::from_str(sender_user_id),
        operator_user_id: String::from_str(operator_user_id),
        is_set: false,
        created_at,
    }
}

/// The category a member's group is filed under when the member joins: `{user}:group:default`.
pub fn default_group_category_id(user_id: &str) -> (r: String)
    ensures
        r@ == user_id@ + ":group:default"@,
{
    concat_str(user_id, ":group:default")
}

} // verus!
