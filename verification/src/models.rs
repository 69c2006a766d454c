//! The data model: accounts, groups, members, messages, requests, group content
//! and the internal events exchanged between simulated users.
use vstd::prelude::*;

verus! {

pub type DbId = String;

#[derive(Debug, Clone, Copy, PartialEq, Eq, Structural)]
pub enum AccountStatus {
    Active,
    Disabled,
    Unavailable,
    Deleted,
}

impl Default for AccountStatus {
    fn default() -> (r: Self)
        ensures
            r == AccountStatus::Active,
    {
        AccountStatus::Active
    }
}

#[derive(Debug, Clone, Copy, PartialEq, Eq, Structural)]
pub enum GroupStatus {
    Active,
    Dissolved,
    Unavailable,
}

impl Default for GroupStatus {
    fn default() -> (r: Self)
        ensures
            r == GroupStatus::Active,
    {
        GroupStatus::Active
    }
}

#[derive(Debug, Clone, Copy, PartialEq, Eq, Structural)]
pub enum GroupRole {
    Owner,
    Admin,
    Member,
}

#[derive(Debug, Clone, Copy, PartialEq, Eq, Structural)]
pub enum RequestState {
    Pending,
    Accepted,
    Rejected,
    Ignored,
}

#[derive(Debug, Clone, Copy, PartialEq, Eq, Structural)]
pub enum GroupRequestType {
    Join,
    Invite,
}

#[derive(Debug, PartialEq, Eq)]
pub struct UserProfile {
    pub user_id: DbId,
    pub nickname: String,
    pub avatar: String,
    pub signature: String,
    pub account_status: AccountStatus,
}

impl Clone for UserProfile {
    fn clone(&self) -> (r: Self)
        ensures
            r == *self,
    {
        UserProfile {
            user_id: self.user_id.clone(),
            nickname: self.nickname.clone(),
            avatar: self.avatar.clone(),
            signature: self.signature.clone(),
            account_status: self.account_status,
        }
    }
}

#[derive(Debug, Clone, PartialEq, Eq)]
pub struct GroupProfile {
    pub group_id: DbId,
    pub group_name: String,
    pub owner_user_id: DbId,
    pub member_count: u32,
    pub max_member_count: u32,
    pub group_status: GroupStatus,
    pub category_id: Option<String>,
}

#[derive(Debug, Clone, PartialEq, Eq)]
pub struct GroupMemberProfile {
    pub group_id: DbId,
    pub user_id: DbId,
    pub card: String,
    pub title: String,
    pub role: GroupRole,
    pub joined_at: u64,
    pub last_sent_at: u64,
    pub mute_until: Option<u64>,
}

/// Where a message, reaction or poke belongs: a private chat with a peer, or a group.
#[derive(Debug, Clone, PartialEq, Eq)]
pub enum MessageSource {
    Private { peer_user_id: DbId },
    Group { group_id: DbId },
}

#[derive(Debug, Clone, PartialEq, Eq)]
pub struct MessageRecallInfo {
    pub recalled: bool,
    pub recalled_by_user_id: Option<DbId>,
}

#[derive(Debug, Clone, PartialEq, Eq)]
pub struct MessageEntity {
    pub message_id: DbId,
    pub sender_user_id: DbId,
    pub source: MessageSource,
    pub content: Vec<MessageSegment>,
    pub quoted_message_id: Option<DbId>,
    pub created_at: u64,
    pub recall: MessageRecallInfo,
}

#[derive(Debug, Clone, PartialEq, Eq)]
pub struct MessageReactionEntity {
    pub reaction_id: DbId,
    pub message_id: DbId,
    pub source: MessageSource,
    pub operator_user_id: DbId,
    pub face_id: String,
    pub is_add: bool,
    pub created_at: u64,
}

#[derive(Debug, Clone, PartialEq, Eq)]
pub struct PokeEntity {
    pub poke_id: DbId,
    pub source: MessageSource,
    pub sender_user_id: DbId,
    pub target_user_id: DbId,
    pub created_at: u64,
}

#[derive(Debug, Clone, PartialEq, Eq)]
pub struct GroupAnnouncementEntity {
    pub announcement_id: String,
    pub group_id: DbId,
    pub sender_user_id: DbId,
    pub content: String,
    pub image_url: Option<String>,
    pub created_at: u64,
    pub updated_at: u64,
}

#[derive(Debug, Clone, PartialEq, Eq)]
pub struct GroupFileEntity {
    pub file_id: String,
    pub group_id: DbId,
    pub parent_folder_id: String,
    pub file_name: String,
    pub file_size: u64,
    pub file_hash: Option<String>,
    pub uploader_user_id: DbId,
    pub uploaded_at: u64,
    pub expire_at: Option<u64>,
    pub download_count: u32,
    pub file_path: Option<String>,
}

#[derive(Debug, Clone, PartialEq, Eq)]
pub struct GroupFolderEntity {
    pub folder_id: String,
    pub group_id: DbId,
    pub parent_folder_id: String,
    pub folder_name: String,
    pub creator_user_id: DbId,
    pub created_at: u64,
    pub updated_at: u64,
    pub file_count: u32,
}

#[derive(Debug, Clone, PartialEq, Eq)]
pub struct GroupAlbumEntity {
    pub album_id: String,
    pub group_id: DbId,
    pub name: String,
    pub cover_url: Option<String>,
    pub photo_count: u32,
    pub created_at: u64,
    pub updated_at: u64,
}

#[derive(Debug, Clone, PartialEq, Eq)]
pub struct GroupPhotoEntity {
    pub photo_id: String,
    pub album_id: String,
    pub group_id: DbId,
    pub url: String,
    pub file_path: Option<String>,
    pub description: Option<String>,
    pub uploader_user_id: DbId,
    pub file_size: Option<u64>,
    pub created_at: u64,
}

#[derive(Debug, Clone, PartialEq, Eq)]
pub struct GroupCategoryEntity {
    pub category_id: String,
    pub owner_user_id: DbId,
    pub name: String,
    pub sort_order: i32,
    pub created_at: u64,
    pub updated_at: u64,
}

#[derive(Debug, Clone, PartialEq, Eq)]
pub struct FriendRequestEntity {
    pub request_id: DbId,
    pub initiator_user_id: DbId,
    pub target_user_id: DbId,
    pub comment: String,
    pub state: RequestState,
    pub created_at: u64,
    pub handled_at: Option<u64>,
}

#[derive(Debug, Clone, PartialEq, Eq)]
pub struct GroupRequestEntity {
    pub request_id: DbId,
    pub group_id: DbId,
    pub request_type: GroupRequestType,
    pub initiator_user_id: DbId,
    pub target_user_id: Option<DbId>,
    pub comment: Option<String>,
    pub state: RequestState,
    pub created_at: u64,
    pub handled_at: Option<u64>,
    pub operator_user_id: Option<DbId>,
}

#[derive(Debug, Clone, PartialEq, Eq)]
pub struct GroupWholeMuteState {
    pub group_id: DbId,
    pub muted: bool,
    pub mute_until: Option<u64>,
    pub operator_user_id: Option<DbId>,
    pub updated_at: u64,
}

#[derive(Debug, Clone, PartialEq, Eq)]
pub struct GroupEssenceMessageEntity {
    pub essence_id: DbId,
    pub group_id: DbId,
    pub message_id: DbId,
    pub sender_user_id: DbId,
    pub operator_user_id: DbId,
    pub is_set: bool,
    pub created_at: u64,
}

#[derive(Debug, Clone, PartialEq)]
pub enum GroupEventPayload {
    MemberJoined { operator_user_id: DbId, joined_user_id: DbId },
    MemberMuted { operator_user_id: DbId, target_user_id: DbId, mute_until: Option<u64> },
    EssenceSet { message_id: DbId, sender_user_id: DbId, operator_user_id: DbId },
}

#[derive(Debug, Clone, PartialEq)]
pub struct GroupEventEntity {
    pub event_id: DbId,
    pub group_id: DbId,
    pub payload: GroupEventPayload,
    pub created_at: u64,
}

/// Pin and mute flags of one conversation of a user.
#[derive(Debug, Clone, PartialEq, Eq)]
pub struct ConversationState {
    pub conversation_scene: String,
    pub peer_user_id: Option<String>,
    pub group_id: Option<String>,
    pub is_pinned: bool,
    pub is_muted: bool,
}

/// A debugging session of a bot.
#[derive(Debug, Clone, PartialEq, Eq)]
pub struct DebugSession {
    pub session_id: String,
    pub bot_id: String,
    pub session_name: String,
    pub description: Option<String>,
    pub started_at: u64,
    pub ended_at: Option<u64>,
}

/// One piece of a chat message.
#[derive(Debug, Clone, PartialEq, Eq)]
pub enum MessageSegment {
    Text { text: String },
    Image { file: String, url: String },
    At { target: String },
    AtAll,
    Face { id: String },
}

#[derive(Debug, Clone, PartialEq, Eq)]
pub enum NoticeType {
    Mute,
    Kick,
    AdminChange,
}

/// Events delivered to the chat window of a simulated user.
#[derive(Debug, Clone, PartialEq, Eq)]
#[allow(inconsistent_fields)]
pub enum InternalEvent {
    Message { sender: DbId, group_id: Option<DbId>, content: Vec<MessageSegment>, time: u64 },
    MessageRecalled { message_id: DbId, source: MessageSource, recalled_by_user_id: DbId, time: u64 },
    MessageReaction {
        reaction_id: DbId,
        message_id: DbId,
        source: MessageSource,
        operator_user_id: DbId,
        face_id: String,
        is_add: bool,
        time: u64,
    },
    Poke { poke_id: DbId, source: MessageSource, sender_user_id: DbId, target_user_id: DbId, time: u64 },
    FriendRequestCreated { request_id: DbId, initiator_user_id: DbId, target_user_id: DbId, time: u64 },
    FriendRequestHandled {
        request_id: DbId,
        initiator_user_id: DbId,
        target_user_id: DbId,
        operator_user_id: DbId,
        state: RequestState,
        time: u64,
    },
    GroupRequestCreated {
        request_id: DbId,
        group_id: DbId,
        request_type: GroupRequestType,
        initiator_user_id: DbId,
        target_user_id: Option<DbId>,
        time: u64,
    },
    GroupRequestHandled {
        request_id: DbId,
        group_id: DbId,
        request_type: GroupRequestType,
        initiator_user_id: DbId,
        target_user_id: Option<DbId>,
        operator_user_id: DbId,
        state: RequestState,
        time: u64,
    },
    GroupMemberMuted {
        group_id: DbId,
        operator_user_id: DbId,
        target_user_id: DbId,
        mute_until: Option<u64>,
        time: u64,
    },
    GroupMemberJoined { group_id: DbId, operator_user_id: DbId, target_user_id: DbId, time: u64 },
    GroupMemberTitleUpdated { group_id: DbId, operator_user_id: DbId, target_user_id: DbId, time: u64 },
    GroupWholeMuteUpdated {
        group_id: DbId,
        operator_user_id: DbId,
        muted: bool,
        mute_until: Option<u64>,
        time: u64,
    },
    GroupAnnouncementUpserted { announcement_id: String, group_id: DbId, sender_user_id: DbId, time: u64 },
    GroupFolderUpserted { folder_id: String, group_id: DbId, creator_user_id: DbId, time: u64 },
    GroupFileUpserted { file_id: String, group_id: DbId, uploader_user_id: DbId, time: u64 },
    GroupEssenceUpdated {
        essence_id: DbId,
        group_id: DbId,
        message_id: DbId,
        sender_user_id: DbId,
        operator_user_id: DbId,
        is_set: bool,
        time: u64,
    },
    Notice { group_id: DbId, actor: DbId, target: DbId, notice_type: NoticeType, time: u64 },
}

/// An event addressed to one simulated user, as shown in the developer tools.
#[derive(Debug, Clone)]
pub struct DevToolsEvent {
    pub recipient_user_id: String,
    pub event: InternalEvent,
}

} // verus!
