//! Rows as the database returns them, and their conversion into the model. A stored
//! enumeration spelling that is not known turns the conversion into a protocol error.
use vstd::prelude::*;

use crate::codecs::{
    group_request_type_from_db, group_request_type_of_db, group_role_from_db, group_role_of_db,
    group_status_from_db, group_status_of_db, protocol_error, request_state_from_db,
    request_state_of_db, source_decodes_to, source_scene_known,
};
use crate::error::AppError;
use crate::models::{
    ConversationState, DebugSession, GroupAlbumEntity, GroupAnnouncementEntity, GroupCategoryEntity,
    GroupEssenceMessageEntity, GroupFileEntity, GroupFolderEntity, GroupMemberProfile, GroupPhotoEntity,
    GroupProfile, GroupRequestEntity, GroupRequestType, GroupWholeMuteState, MessageReactionEntity,
    MessageSource, PokeEntity,
};

verus! {

pub struct GroupRow {
    pub group_id: String,
    pub group_name: String,
    pub owner_user_id: String,
    pub member_count: u32,
    pub max_member_count: u32,
    pub group_status: String,
}

pub struct UserGroupRow {
    pub group_id: String,
    pub group_name: String,
    pub owner_user_id: String,
    pub member_count: u32,
    pub max_member_count: u32,
    pub group_status: String,
    pub category_id: Option<String>,
}

pub struct GroupMemberRow {
    pub group_id: String,
    pub user_id: String,
    pub card: String,
    pub special_title: String,
    pub role: String,
    pub joined_at: u64,
    pub last_sent_at: u64,
    pub mute_until: Option<u64>,
}

pub struct GroupRequestRow {
    pub id: String,
    pub group_id: String,
    pub request_type: String,
    pub initiator_user_id: String,
    pub target_user_id: Option<String>,
    pub comment: Option<String>,
    pub state: String,
    pub created_at: u64,
    pub handled_at: Option<u64>,
    pub operator_user_id: Option<String>,
}

pub struct GroupWholeMuteRow {
    pub group_id: String,
    pub muted: bool,
    pub mute_until: Option<u64>,
    pub operator_user_id: Option<String>,
    pub updated_at: u64,
}

pub struct GroupAnnouncementRow {
    pub announcement_id: String,
    pub group_id: String,
    pub sender_user_id: String,
    pub content: String,
    pub image_url: Option<String>,
    pub created_at: u64,
    pub updated_at: u64,
}

pub struct GroupFileRow {
    pub file_id: String,
    pub group_id: String,
    pub parent_folder_id: String,
    pub file_name: String,
    pub file_size: u64,
    pub file_hash: Option<String>,
    pub uploader_user_id: String,
    pub uploaded_at: u64,
    pub expire_at: Option<u64>,
    pub file_path: Option<String>,
    pub download_count: u32,
}

pub struct GroupAlbumRow {
    pub album_id: String,
    pub group_id: String,
    pub name: String,
    pub cover_url: Option<String>,
    pub photo_count: u32,
    pub created_at: i64,
    pub updated_at: i64,
}

pub struct GroupPhotoRow {
    pub photo_id: String,
    pub album_id: String,
    pub group_id: String,
    pub url: String,
    pub file_path: Option<String>,
    pub description: Option<String>,
    pub uploader_user_id: String,
    pub file_size: Option<i64>,
    pub created_at: i64,
}

pub struct GroupFolderRow {
    pub folder_id: String,
    pub group_id: String,
    pub parent_folder_id: String,
    pub folder_name: String,
    pub creator_user_id: String,
    pub created_at: u64,
    pub updated_at: u64,
    pub file_count: u32,
}

pub struct GroupEssenceRow {
    pub id: String,
    pub group_id: String,
    pub message_id: String,
    pub sender_user_id: String,
    pub operator_user_id: String,
    pub is_set: bool,
    pub created_at: u64,
}

pub struct GroupCategoryRow {
    pub category_id: String,
    pub owner_user_id: String,
    pub name: String,
    pub sort_order: i32,
    pub created_at: i64,
    pub updated_at: i64,
}

/// A bot as stored.
pub struct BotRow {
    pub bot_id: String,
    pub bound_user_id: String,
    pub display_name: String,
    pub runtime_status: String,
    pub config_path: String,
    pub created_at: i64,
}

/// A debugging session as stored.
pub struct DebugSessionRow {
    pub session_id: String,
    pub bot_id: String,
    pub session_name: String,
    pub description: Option<String>,
    pub started_at: i64,
    pub ended_at: Option<i64>,
}

/// The pin and mute flags of a conversation as stored (integers used as booleans).
pub struct ConversationStateRow {
    pub conversation_scene: String,
    pub peer_user_id: Option<String>,
    pub group_id: Option<String>,
    pub is_pinned: i64,
    pub is_muted: i64,
}

/// A message reaction as stored, with the scene and peer or group of its message.
pub struct MessageReactionRow {
    pub id: String,
    pub message_id: String,
    pub source_type: String,
    pub source_id: String,
    pub operator_user_id: String,
    pub face_id: String,
    pub is_add: bool,
    pub created_at: u64,
}

/// A poke as stored.
pub struct PokeRow {
    pub id: String,
    pub source_type: String,
    pub source_id: String,
    pub sender_user_id: String,
    pub target_user_id: String,
    pub created_at: u64,
}

/// `v` reinterpreted as unsigned, as `v as u64` does.
pub open spec fn as_u64(v: i64) -> u64 {
    v as u64
}

fn opt_as_u64(v: Option<i64>) -> (r: Option<u64>)
    ensures
        r == match v {
            Some(x) => Some(x as u64),
            None => None::<u64>,
        },
{
    match v {
        Some(x) => Some(x as u64),
        None => None,
    }
}

impl GroupProfile {
    /// A group from its row; the status must be a known spelling. The row carries no category.
    pub fn try_from(row: GroupRow) -> (r: Result<Self, sqlx::Error>)
        ensures
            r is Ok <==> group_status_of_db(row.group_status@) is Some,
            r matches Ok(g) ==> {
                &&& g.group_id == row.group_id
                &&& g.group_name == row.group_name
                &&& g.owner_user_id == row.owner_user_id
                &&& g.member_count == row.member_count
                &&& g.max_member_count == row.max_member_count
                &&& Some(g.group_status) == group_status_of_db(row.group_status@)
                &&& g.category_id is None
            },
    {
        let group_status = match group_status_from_db(row.group_status.as_str()) {
            Ok(s) => s,
            Err(e) => return Err(e),
        };
        Ok(GroupProfile {
            group_id: row.group_id,
            group_name: row.group_name,
            owner_user_id: row.owner_user_id,
            member_count: row.member_count,
            max_member_count: row.max_member_count,
            group_status,
            category_id: None,
        })
    }

    /// A group of a user's group list from its row, with the user's category for it.
    pub fn try_from_user_group_row(row: UserGroupRow) -> (r: Result<Self, sqlx::Error>)
        ensures
            r is Ok <==> group_status_of_db(row.group_status@) is Some,
            r matches Ok(g) ==> {
                &&& g.group_id == row.group_id
                &&& g.group_name == row.group_name
                &&& g.owner_user_id == row.owner_user_id
                &&& g.member_count == row.member_count
                &&& g.max_member_count == row.max_member_count
                &&& Some(g.group_status) == group_status_of_db(row.group_status@)
                &&& g.category_id == row.category_id
            },
    {
        let group_status = match group_status_from_db(row.group_status.as_str()) {
            Ok(s) => s,
            Err(e) => return Err(e),
        };
        Ok(GroupProfile {
            group_id: row.group_id,
            group_name: row.group_name,
            owner_user_id: row.owner_user_id,
            member_count: row.member_count,
            max_member_count: row.max_member_count,
            group_status,
            category_id: row.category_id,
        })
    }
}

impl GroupMemberProfile {
    /// A member from its row; the role must be a known spelling and the special title
    /// becomes the member's title.
    pub fn try_from(row: GroupMemberRow) -> (r: Result<Self, sqlx::Error>)
        ensures
            r is Ok <==> group_role_of_db(row.role@) is Some,
            r matches Ok(m) ==> {
                &&& m.group_id == row.group_id
                &&& m.user_id == row.user_id
                &&& m.card == row.card
                &&& m.title == row.special_title
                &&& Some(m.role) == group_role_of_db(row.role@)
                &&& m.joined_at == row.joined_at
                &&& m.last_sent_at == row.last_sent_at
                &&& m.mute_until == row.mute_until
            },
    {
        let role = match group_role_from_db(row.role.as_str()) {
            Ok(r) => r,
            Err(e) => return Err(e),
        };
        Ok(GroupMemberProfile {
            group_id: row.group_id,
            user_id: row.user_id,
            card: row.card,
            title: row.special_title,
            role,
            joined_at: row.joined_at,
            last_sent_at: row.last_sent_at,
            mute_until: row.mute_until,
        })
    }
}

impl GroupRequestEntity {
    /// A group request from its row; its type and state must be known spellings.
    pub fn try_from(row: GroupRequestRow) -> (r: Result<Self, sqlx::Error>)
        ensures
            r is Ok <==> (group_request_type_of_db(row.request_type@) is Some && request_state_of_db(
                row.state@,
            ) is Some),
            r matches Ok(q) ==> {
                &&& q.request_id == row.id
                &&& q.group_id == row.group_id
                &&& Some(q.request_type) == group_request_type_of_db(row.request_type@)
                &&& q.initiator_user_id == row.initiator_user_id
                &&& q.target_user_id == row.target_user_id
                &&& q.comment == row.comment
                &&& Some(q.state) == request_state_of_db(row.state@)
                &&& q.created_at == row.created_at
                &&& q.handled_at == row.handled_at
                &&& q.operator_user_id == row.operator_user_id
            },
    {
        let request_type = match group_request_type_from_db(row.request_type.as_str()) {
            Ok(t) => t,
            Err(e) => return Err(e),
        };
        let state = match request_state_from_db(row.state.as_str()) {
            Ok(s) => s,
            Err(e) => return Err(e),
        };
        Ok(GroupRequestEntity {
            request_id: row.id,
            group_id: row.group_id,
            request_type,
            initiator_user_id: row.initiator_user_id,
            target_user_id: row.target_user_id,
            comment: row.comment,
            state,
            created_at: row.created_at,
            handled_at: row.handled_at,
            operator_user_id: row.operator_user_id,
        })
    }
}

impl GroupWholeMuteState {
    /// The whole-group mute state from its row; always succeeds.
    pub fn try_from(row: GroupWholeMuteRow) -> (r: Result<Self, sqlx::Error>)
        ensures
            r matches Ok(s) && s.group_id == row.group_id && s.muted == row.muted && s.mute_until
                == row.mute_until && s.operator_user_id == row.operator_user_id && s.updated_at
                == row.updated_at,
    {
        Ok(GroupWholeMuteState {
            group_id: row.group_id,
            muted: row.muted,
            mute_until: row.mute_until,
            operator_user_id: row.operator_user_id,
            updated_at: row.updated_at,
        })
    }
}

impl GroupAnnouncementEntity {
    /// An announcement from its row; always succeeds.
    pub fn try_from(row: GroupAnnouncementRow) -> (r: Result<Self, sqlx::Error>)
        ensures
            r matches Ok(a) && a.announcement_id == row.announcement_id && a.group_id == row.group_id
                && a.sender_user_id == row.sender_user_id && a.content == row.content && a.image_url
                == row.image_url && a.created_at == row.created_at && a.updated_at == row.updated_at,
    {
        Ok(GroupAnnouncementEntity {
            announcement_id: row.announcement_id,
            group_id: row.group_id,
            sender_user_id: row.sender_user_id,
            content: row.content,
            image_url: row.image_url,
            created_at: row.created_at,
            updated_at: row.updated_at,
        })
    }
}

impl GroupFileEntity {
    /// A group file from its row; always succeeds.
    pub fn try_from(row: GroupFileRow) -> (r: Result<Self, sqlx::Error>)
        ensures
            r matches Ok(f) && f.file_id == row.file_id && f.group_id == row.group_id
                && f.parent_folder_id == row.parent_folder_id && f.file_name == row.file_name
                && f.file_size == row.file_size && f.file_hash == row.file_hash && f.uploader_user_id
                == row.uploader_user_id && f.uploaded_at == row.uploaded_at && f.expire_at
                == row.expire_at && f.download_count == row.download_count && f.file_path
                == row.file_path,
    {
        Ok(GroupFileEntity {
            file_id: row.file_id,
            group_id: row.group_id,
            parent_folder_id: row.parent_folder_id,
            file_name: row.file_name,
            file_size: row.file_size,
            file_hash: row.file_hash,
            uploader_user_id: row.uploader_user_id,
            uploaded_at: row.uploaded_at,
            expire_at: row.expire_at,
            download_count: row.download_count,
            file_path: row.file_path,
        })
    }
}

impl GroupAlbumEntity {
    /// An album from its row; the stored signed times are reinterpreted as unsigned.
    pub fn try_from(row: GroupAlbumRow) -> (r: Result<Self, sqlx::Error>)
        ensures
            r matches Ok(a) && a.album_id == row.album_id && a.group_id == row.group_id && a.name
                == row.name && a.cover_url == row.cover_url && a.photo_count == row.photo_count
                && a.created_at == as_u64(row.created_at) && a.updated_at == as_u64(row.updated_at),
    {
        Ok(GroupAlbumEntity {
            album_id: row.album_id,
            group_id: row.group_id,
            name: row.name,
            cover_url: row.cover_url,
            photo_count: row.photo_count,
            created_at: row.created_at as u64,
            updated_at: row.updated_at as u64,
        })
    }
}

impl GroupPhotoEntity {
    /// A photo from its row; the stored signed size and time are reinterpreted as unsigned.
    pub fn try_from(row: GroupPhotoRow) -> (r: Result<Self, sqlx::Error>)
        ensures
            r matches Ok(p) && p.photo_id == row.photo_id && p.album_id == row.album_id && p.group_id
                == row.group_id && p.url == row.url && p.file_path == row.file_path && p.description
                == row.description && p.uploader_user_id == row.uploader_user_id && p.file_size == (
            match row.file_size {
                Some(s) => Some(as_u64(s)),
                None => None::<u64>,
            }) && p.created_at == as_u64(row.created_at),
    {
        Ok(GroupPhotoEntity {
            photo_id: row.photo_id,
            album_id: row.album_id,
            group_id: row.group_id,
            url: row.url,
            file_path: row.file_path,
            description: row.description,
            uploader_user_id: row.uploader_user_id,
            file_size: opt_as_u64(row.file_size),
            created_at: row.created_at as u64,
        })
    }
}

impl GroupFolderEntity {
    /// A folder from its row; always succeeds.
    pub fn try_from(row: GroupFolderRow) -> (r: Result<Self, sqlx::Error>)
        ensures
            r matches Ok(f) && f.folder_id == row.folder_id && f.group_id == row.group_id
                && f.parent_folder_id == row.parent_folder_id && f.folder_name == row.folder_name
                && f.creator_user_id == row.creator_user_id && f.created_at == row.created_at
                && f.updated_at == row.updated_at && f.file_count == row.file_count,
    {
        Ok(GroupFolderEntity {
            folder_id: row.folder_id,
            group_id: row.group_id,
            parent_folder_id: row.parent_folder_id,
            folder_name: row.folder_name,
            creator_user_id: row.creator_user_id,
            created_at: row.created_at,
            updated_at: row.updated_at,
            file_count: row.file_count,
        })
    }
}

impl GroupCategoryEntity {
    /// A group category from its row; the stored signed times are reinterpreted as unsigned.
    pub fn try_from(row: GroupCategoryRow) -> (r: Result<Self, sqlx::Error>)
        ensures
            r matches Ok(c) && c.category_id == row.category_id && c.owner_user_id
                == row.owner_user_id && c.name == row.name && c.sort_order == row.sort_order
                && c.created_at == as_u64(row.created_at) && c.updated_at == as_u64(row.updated_at),
    {
        Ok(GroupCategoryEntity {
            category_id: row.category_id,
            owner_user_id: row.owner_user_id,
            name: row.name,
            sort_order: row.sort_order,
            created_at: row.created_at as u64,
            updated_at: row.updated_at as u64,
        })
    }
}

impl GroupEssenceMessageEntity {
    /// An essence message from its row; always succeeds.
    pub fn try_from(row: GroupEssenceRow) -> (r: Result<Self, sqlx::Error>)
        ensures
            r matches Ok(e) && e.essence_id == row.id && e.group_id == row.group_id && e.message_id
                == row.message_id && e.sender_user_id == row.sender_user_id && e.operator_user_id
                == row.operator_user_id && e.is_set == row.is_set && e.created_at == row.created_at,
    {
        Ok(GroupEssenceMessageEntity {
            essence_id: row.id,
            group_id: row.group_id,
            message_id: row.message_id,
            sender_user_id: row.sender_user_id,
            operator_user_id: row.operator_user_id,
            is_set: row.is_set,
            created_at: row.created_at,
        })
    }
}

impl DebugSession {
    /// A debugging session from its row; the stored signed times are reinterpreted as unsigned.
    pub fn try_from(row: DebugSessionRow) -> (r: Result<Self, AppError>)
        ensures
            r matches Ok(s) && s.session_id == row.session_id && s.bot_id == row.bot_id
                && s.session_name == row.session_name && s.description == row.description
                && s.started_at == as_u64(row.started_at) && s.ended_at == (match row.ended_at {
                Some(t) => Some(as_u64(t)),
                None => None::<u64>,
            }),
    {
        Ok(DebugSession {
            session_id: row.session_id,
            bot_id: row.bot_id,
            session_name: row.session_name,
            description: row.description,
            started_at: row.started_at as u64,
            ended_at: opt_as_u64(row.ended_at),
        })
    }
}

impl ConversationState {
    /// The flags of a conversation from its row: any non-zero integer is set.
    pub fn from(row: ConversationStateRow) -> (r: Self)
        ensures
            r.conversation_scene == row.conversation_scene,
            r.peer_user_id == row.peer_user_id,
            r.group_id == row.group_id,
            r.is_pinned == (row.is_pinned != 0),
            r.is_muted == (row.is_muted != 0),
    {
        ConversationState {
            conversation_scene: row.conversation_scene,
            peer_user_id: row.peer_user_id,
            group_id: row.group_id,
            is_pinned: row.is_pinned != 0,
            is_muted: row.is_muted != 0,
        }
    }
}

impl MessageReactionEntity {
    /// A reaction from its row; the scene must be `private` or `group`.
    pub fn try_from(row: MessageReactionRow) -> (r: Result<Self, sqlx::Error>)
        ensures
            r is Ok <==> source_scene_known(row.source_type@),
            r matches Ok(e) ==> {
                &&& e.reaction_id == row.id
                &&& e.message_id == row.message_id
                &&& source_decodes_to(row.source_type@, row.source_id@, e.source)
                &&& e.operator_user_id == row.operator_user_id
                &&& e.face_id == row.face_id
                &&& e.is_add == row.is_add
                &&& e.created_at == row.created_at
            },
    {
        let source = match MessageSource::try_from((row.source_type.as_str(), row.source_id)) {
            Ok(s) => s,
            Err(msg) => return Err(protocol_error(msg)),
        };
        Ok(MessageReactionEntity {
            reaction_id: row.id,
            message_id: row.message_id,
            source,
            operator_user_id: row.operator_user_id,
            face_id: row.face_id,
            is_add: row.is_add,
            created_at: row.created_at,
        })
    }
}

impl PokeEntity {
    /// A poke from its row; the scene must be `private` or `group`.
    pub fn try_from(row: PokeRow) -> (r: Result<Self, sqlx::Error>)
        ensures
            r is Ok <==> source_scene_known(row.source_type@),
            r matches Ok(p) ==> {
                &&& p.poke_id == row.id
                &&& source_decodes_to(row.source_type@, row.source_id@, p.source)
                &&& p.sender_user_id == row.sender_user_id
                &&& p.target_user_id == row.target_user_id
                &&& p.created_at == row.created_at
            },
    {
        let source = match MessageSource::try_from((row.source_type.as_str(), row.source_id)) {
            Ok(s) => s,
            Err(msg) => return Err(protocol_error(msg)),
        };
        Ok(PokeEntity {
            poke_id: row.id,
            source,
            sender_user_id: row.sender_user_id,
            target_user_id: row.target_user_id,
            created_at: row.created_at,
        })
    }
}

} // verus!
