//! The typed REST responses the client reads. The surrounding code
//! turns endpoint bodies into these values and back.

use vstd::prelude::*;

verus! {

/// The users the `getusers` endpoint resolved.
#[derive(Clone, Debug)]
pub struct UsersResponse {
    pub users: Vec<User>,
}

/// One resolved user.
#[derive(Clone, Debug)]
pub struct User {
    pub user_id: i32,
    pub channel_id: i32,
    pub username: String,
    pub nickname: String,
}

/// A link a channel shows on its page.
#[derive(Clone, Debug)]
pub struct SocialLink {
    pub type_: String,
    pub url: String,
}

/// The authorized user's own profile.
#[derive(Clone, Debug)]
pub struct UserInfo {
    pub user_id: i32,
    pub user_name: String,
    pub nick_name: String,
    pub email: String,
    pub profile_pic: String,
    pub info: String,
    pub channel_id: i32,
}

/// A channel's public state.
#[derive(Clone, Debug)]
pub struct ChannelInfo {
    pub is_live: bool,
    pub category_id: i32,
    pub category_name: String,
    pub live_title: String,
    pub audi_type: String,
    pub language_code: String,
    pub thumbnail: String,
    pub current_viewers: i32,
    pub followers: i32,
    pub streamer_info: String,
    pub profile_pic: String,
    pub channel_url: String,
    pub created_at: i64,
    pub subscriber_num: i32,
    pub username: String,
    pub social_links: Vec<SocialLink>,
    pub started_at: i64,
    pub ended_at: i64,
}

/// The (empty) answer to sending a chat message.
#[derive(Clone, Debug)]
pub struct MessageResponse {}

/// The (empty) answer to deleting a chat message.
#[derive(Clone, Debug)]
pub struct DeleteResponse {}

/// The answer to a chat command.
#[derive(Clone, Debug)]
pub struct CommandResponse {
    pub is_success: bool,
    pub display_msg: String,
}

/// The chat-session token for one channel.
#[derive(Clone, Debug)]
pub struct ChatTokenResponse {
    pub token: String,
}

/// The tokens the token endpoint handed back.
#[derive(Clone, Debug)]
pub struct RefreshResponse {
    pub access_token: String,
    pub refresh_token: String,
}

} // verus!
