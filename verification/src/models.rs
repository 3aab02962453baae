//! Shared protocol data model: message kinds, attachments and user
//! references, plus the validation helpers that accompany them.

use vstd::prelude::*;
use crate::text::{chars_eq, str_to_chars};

verus! {

/// The kind of a protocol message.
#[derive(Clone, Copy, Debug, PartialEq, Eq, Structural)]
pub enum MessageType {
    Message,
    Memo,
    Article,
}

/// An uploaded object referenced from a message.
#[derive(Clone, Debug, PartialEq)]
pub struct Attachment {
    pub id: String,
    pub mime: String,
    pub url: String,
    pub size: u64,
}

/// A reference to a user, either as a bare handle or as an `ofscp://` URI.
#[derive(Clone, Debug, PartialEq)]
pub enum UserRef {
    Uri(String),
    Handle(String),
}

/// Message body content with its MIME type.
#[derive(Clone, Debug, PartialEq)]
pub struct Content {
    pub text: String,
    pub mime: String,
}

/// A user's advertised availability.
#[derive(Clone, Copy, Debug, PartialEq, Eq, Structural)]
pub enum Availability {
    Online,
    Away,
    Dnd,
    Offline,
}

/// A user's presence: availability plus optional status text and
/// last-seen timestamp.
#[derive(Clone, Debug, PartialEq)]
pub struct Presence {
    pub availability: Availability,
    pub status: Option<String>,
    pub last_seen: Option<String>,
}

/// A protocol message as carried on the wire, reduced to the fields this
/// client reads. Timestamps travel as RFC 3339 text.
#[derive(Clone, Debug, PartialEq)]
pub struct BaseMessage {
    pub id: String,
    pub author: UserRef,
    pub message_type: MessageType,
    pub title: Option<String>,
    pub content: Content,
    pub attachments: Vec<Attachment>,
    pub created_at: String,
    pub parent_id: Option<String>,
    pub parent_message_type: Option<MessageType>,
}


/// Who can discover a resource.
#[derive(Clone, Copy, Debug, PartialEq, Eq, Structural)]
pub enum Discoverability {
    Private,
    Group,
    Public,
    Discoverable,
}

/// Who can see a profile facet.
#[derive(Clone, Copy, Debug, PartialEq, Eq, Structural)]
pub enum VisibilityPolicy {
    Public,
    Authenticated,
    SharedGroups,
    Contacts,
    Nobody,
}

/// Is `c` allowed in a resource name?
pub open spec fn spec_is_resource_char(c: char) -> bool {
    ('a' <= c && c <= 'z') || ('0' <= c && c <= '9') || c == '.' || c == '_' || c == '-'
}

/// Is `s` a valid resource name: non-empty, all lowercase ASCII letters,
/// digits, dots, underscores and hyphens?
pub open spec fn spec_valid_resource_name(s: Seq<char>) -> bool {
    s.len() > 0 && forall|i: int| 0 <= i < s.len() ==> spec_is_resource_char(#[trigger] s[i])
}

/// Validates a group, channel or similar resource name.
pub fn validate_resource_name(name: &str) -> (r: bool)
    ensures
        r == spec_valid_resource_name(name@),
{
    let v = str_to_chars(name);
    if v.len() == 0 {
        return false;
    }
    let mut i: usize = 0;
    while i < v.len()
        invariant
            i <= v@.len(),
            v@ == name@,
            forall|j: int| 0 <= j < i ==> spec_is_resource_char(#[trigger] v@[j]),
        decreases v@.len() - i,
    {
        let c = v[i];
        if !(('a' <= c && c <= 'z') || ('0' <= c && c <= '9') || c == '.' || c == '_' || c == '-') {
            return false;
        }
        i = i + 1;
    }
    true
}

/// Is `role` one of the three base roles?
pub open spec fn spec_is_base_role(role: Seq<char>) -> bool {
    role == "owner"@ || role == "admin"@ || role == "member"@
}

/// Is this one of the base roles `owner`, `admin`, `member`?
pub fn is_base_role(role: &str) -> (r: bool)
    ensures
        r == spec_is_base_role(role@),
{
    let v = str_to_chars(role);
    let owner = str_to_chars("owner");
    let admin = str_to_chars("admin");
    let member = str_to_chars("member");
    chars_eq(&v, &owner) || chars_eq(&v, &admin) || chars_eq(&v, &member)
}

/// The first base role in a role list, or `member` when none occurs.
pub open spec fn spec_base_role_of(roles: Seq<Seq<char>>) -> Seq<char>
    decreases roles.len(),
{
    if roles.len() == 0 {
        "member"@
    } else if spec_is_base_role(roles.first()) {
        roles.first()
    } else {
        spec_base_role_of(roles.skip(1))
    }
}

/// The member's base role: the first of its roles that is a base role,
/// else `member`.
pub fn get_base_role<'a>(roles: &'a [String]) -> (r: &'a str)
    ensures
        r@ == spec_base_role_of(roles.deep_view()),
{
    let mut i: usize = 0;
    proof {
        assert(roles.deep_view().skip(0) =~= roles.deep_view());
    }
    while i < roles.len()
        invariant
            i <= roles@.len(),
            roles.deep_view().len() == roles@.len(),
            forall|j: int| 0 <= j < roles@.len() ==> roles.deep_view()[j] == roles@[j]@,
            spec_base_role_of(roles.deep_view().skip(i as int)) == spec_base_role_of(
                roles.deep_view(),
            ),
        decreases roles@.len() - i,
    {
        let r = &roles[i];
        proof {
            assert(roles.deep_view().skip(i as int).first() == roles@[i as int]@);
            assert(roles.deep_view().skip(i as int).skip(1) =~= roles.deep_view().skip(i + 1));
        }
        if is_base_role(r.as_str()) {
            return r.as_str();
        }
        i = i + 1;
    }
    "member"
}

/// The custom roles in a role list: everything that is not a base role.
pub open spec fn spec_custom_roles_of(roles: Seq<Seq<char>>) -> Seq<Seq<char>>
    decreases roles.len(),
{
    if roles.len() == 0 {
        Seq::<Seq<char>>::empty()
    } else if spec_is_base_role(roles.first()) {
        spec_custom_roles_of(roles.skip(1))
    } else {
        seq![roles.first()] + spec_custom_roles_of(roles.skip(1))
    }
}

/// Custom roles come after base roles in the result, in original order.
proof fn lemma_custom_roles_snoc(roles: Seq<Seq<char>>, r: Seq<char>)
    ensures
        spec_custom_roles_of(roles.push(r)) == if spec_is_base_role(r) {
            spec_custom_roles_of(roles)
        } else {
            spec_custom_roles_of(roles).push(r)
        },
    decreases roles.len(),
{
    if roles.len() == 0 {
        assert(roles.push(r).first() == r);
        assert(roles.push(r).skip(1) =~= Seq::<Seq<char>>::empty());
        if !spec_is_base_role(r) {
            assert(seq![r] + spec_custom_roles_of(Seq::<Seq<char>>::empty()) =~= Seq::<
                Seq<char>,
            >::empty().push(r));
        }
    } else {
        assert(roles.push(r).first() == roles.first());
        assert(roles.push(r).skip(1) =~= roles.skip(1).push(r));
        lemma_custom_roles_snoc(roles.skip(1), r);
        if !spec_is_base_role(roles.first()) && !spec_is_base_role(r) {
            assert(seq![roles.first()] + spec_custom_roles_of(roles.skip(1)).push(r) =~= (
            seq![roles.first()] + spec_custom_roles_of(roles.skip(1))).push(r));
        }
    }
}

/// The custom (non-base) roles of a member, in order.
pub fn get_custom_roles<'a>(roles: &'a [String]) -> (r: Vec<&'a str>)
    ensures
        r.deep_view() == spec_custom_roles_of(roles.deep_view()),
{
    let mut out: Vec<&str> = Vec::new();
    let mut i: usize = 0;
    proof {
        assert(out.deep_view() =~= Seq::<Seq<char>>::empty());
        assert(roles.deep_view().subrange(0, 0) =~= Seq::<Seq<char>>::empty());
    }
    while i < roles.len()
        invariant
            i <= roles@.len(),
            roles.deep_view().len() == roles@.len(),
            forall|j: int| 0 <= j < roles@.len() ==> roles.deep_view()[j] == roles@[j]@,
            out.deep_view() == spec_custom_roles_of(roles.deep_view().subrange(0, i as int)),
        decreases roles@.len() - i,
    {
        let ghost pre = roles.deep_view().subrange(0, i as int);
        let ghost pre_out = out.deep_view();
        let r = &roles[i];
        if !is_base_role(r.as_str()) {
            out.push(r.as_str());
            proof {
                assert(out.deep_view() =~= pre_out.push(roles@[i as int]@));
            }
        }
        proof {
            lemma_custom_roles_snoc(pre, roles.deep_view()[i as int]);
            assert(pre.push(roles.deep_view()[i as int]) =~= roles.deep_view().subrange(0, i + 1));
        }
        i = i + 1;
    }
    proof {
        assert(roles.deep_view().subrange(0, roles@.len() as int) =~= roles.deep_view());
    }
    out
}

/// Does the role list carry this role?
pub fn has_role(roles: &[String], role: &str) -> (r: bool)
    ensures
        r == exists|i: int| 0 <= i < roles@.len() && roles@[i]@ == role@,
{
    let key = role.to_owned();
    let mut i: usize = 0;
    while i < roles.len()
        invariant
            i <= roles@.len(),
            key@ == role@,
            forall|j: int| 0 <= j < i ==> roles@[j]@ != role@,
        decreases roles@.len() - i,
    {
        if roles[i] == key {
            return true;
        }
        i = i + 1;
    }
    false
}

/// An RFC 7807 style problem payload.
#[derive(Clone, Debug, PartialEq)]
pub struct ProblemDetails {
    pub type_url: String,
    pub title: String,
    pub status: u16,
    pub detail: Option<String>,
    pub instance: Option<String>,
}

impl ProblemDetails {
    /// A 400 problem with the given detail.
    pub fn bad_request(detail: &str) -> (r: ProblemDetails)
        ensures
            r.type_url@ == "https://ofscp.dev/problems/bad-request"@,
            r.title@ == "Bad Request"@,
            r.status == 400,
            r.detail matches Some(d) && d@ == detail@,
            r.instance is None,
    {
        ProblemDetails {
            type_url: "https://ofscp.dev/problems/bad-request".to_owned(),
            title: "Bad Request".to_owned(),
            status: 400,
            detail: Some(detail.to_owned()),
            instance: None,
        }
    }

    /// A 401 problem with the given detail.
    pub fn unauthorized(detail: &str) -> (r: ProblemDetails)
        ensures
            r.type_url@ == "https://ofscp.dev/problems/unauthorized"@,
            r.title@ == "Unauthorized"@,
            r.status == 401,
            r.detail matches Some(d) && d@ == detail@,
            r.instance is None,
    {
        ProblemDetails {
            type_url: "https://ofscp.dev/problems/unauthorized".to_owned(),
            title: "Unauthorized".to_owned(),
            status: 401,
            detail: Some(detail.to_owned()),
            instance: None,
        }
    }

    /// A 404 problem with the given detail.
    pub fn not_found(detail: &str) -> (r: ProblemDetails)
        ensures
            r.type_url@ == "https://ofscp.dev/problems/not-found"@,
            r.title@ == "Not Found"@,
            r.status == 404,
            r.detail matches Some(d) && d@ == detail@,
            r.instance is None,
    {
        ProblemDetails {
            type_url: "https://ofscp.dev/problems/not-found".to_owned(),
            title: "Not Found".to_owned(),
            status: 404,
            detail: Some(detail.to_owned()),
            instance: None,
        }
    }

    /// A 409 problem with the given detail.
    pub fn conflict(detail: &str) -> (r: ProblemDetails)
        ensures
            r.type_url@ == "https://ofscp.dev/problems/conflict"@,
            r.title@ == "Conflict"@,
            r.status == 409,
            r.detail matches Some(d) && d@ == detail@,
            r.instance is None,
    {
        ProblemDetails {
            type_url: "https://ofscp.dev/problems/conflict".to_owned(),
            title: "Conflict".to_owned(),
            status: 409,
            detail: Some(detail.to_owned()),
            instance: None,
        }
    }

    /// A 500 problem with the given detail.
    pub fn internal_error(detail: &str) -> (r: ProblemDetails)
        ensures
            r.type_url@ == "https://ofscp.dev/problems/internal-error"@,
            r.title@ == "Internal Server Error"@,
            r.status == 500,
            r.detail matches Some(d) && d@ == detail@,
            r.instance is None,
    {
        ProblemDetails {
            type_url: "https://ofscp.dev/problems/internal-error".to_owned(),
            title: "Internal Server Error".to_owned(),
            status: 500,
            detail: Some(detail.to_owned()),
            instance: None,
        }
    }
}

/// A failed API call, as the HTTP layer reports it.
#[derive(Clone, Debug, PartialEq)]
pub enum ApiError {
    Network(String),
    Http { status: u16, body: String },
    Deserialize(String),
}

/// The avatar URL a provider returns after an upload.
#[derive(Clone, Debug, PartialEq)]
pub struct AvatarResponse {
    pub url: String,
}

/// A presence change pushed by the client.
#[derive(Clone, Debug, PartialEq)]
pub struct UpdatePresenceRequest {
    pub availability: Availability,
    pub status: Option<String>,
}

/// A user's privacy preferences.
#[derive(Clone, Copy, Debug, PartialEq, Eq, Structural)]
pub struct PrivacySettings {
    pub presence_visibility: VisibilityPolicy,
    pub profile_visibility: VisibilityPolicy,
    pub membership_visibility: VisibilityPolicy,
}

/// A typed reference from one message to another.
#[derive(Clone, Debug, PartialEq)]
pub struct MessageReference {
    pub reference_type: String,
    pub id: String,
}

/// One page of a paginated listing.
#[derive(Clone, Debug, PartialEq)]
pub struct PagedResponse<T> {
    pub items: Vec<T>,
    pub page: PageInfo,
}

/// Cursors around one page of results.
#[derive(Clone, Debug, PartialEq)]
pub struct PageInfo {
    pub next_cursor: Option<String>,
    pub prev_cursor: Option<String>,
}

/// A provider's discovery document.
#[derive(Clone, Debug, PartialEq)]
pub struct DiscoveryDocument {
    pub provider: ProviderInfo,
    pub capabilities: Capabilities,
    pub endpoints: Endpoints,
}

/// The identity section of a discovery document.
#[derive(Clone, Debug, PartialEq)]
pub struct ProviderInfo {
    pub domain: String,
    pub protocol_version: String,
    pub software: SoftwareInfo,
    pub contact: String,
    pub authentication: AuthenticationEndpoints,
    pub public_keys: Option<Vec<PublicKey>>,
}

/// The software a provider runs.
#[derive(Clone, Debug, PartialEq)]
pub struct SoftwareInfo {
    pub name: String,
    pub version: String,
}

/// The authentication endpoints a provider advertises.
#[derive(Clone, Debug, PartialEq)]
pub struct AuthenticationEndpoints {
    pub issuer: String,
    pub authorization_endpoint: String,
    pub token_endpoint: String,
    pub userinfo_endpoint: String,
    pub jwks_uri: Option<String>,
}

/// A provider-level public key.
#[derive(Clone, Debug, PartialEq)]
pub struct PublicKey {
    pub kid: String,
    pub alg: PublicKeyAlg,
    pub public_key: String,
}

/// The signature algorithms the protocol supports.
#[derive(Clone, Copy, Debug, PartialEq, Eq, Structural)]
pub enum PublicKeyAlg {
    Ed25519,
}

/// Provider-enforced limits.
#[derive(Clone, Copy, Debug, PartialEq, Eq, Structural)]
pub struct Limits {
    pub max_upload_size: u64,
}

/// The capabilities section of a discovery document.
#[derive(Clone, Debug, PartialEq)]
pub struct Capabilities {
    pub message_types: Vec<MessageType>,
    pub discoverability: Vec<Discoverability>,
    pub metadata_schemas: Vec<MetadataSchemaInfo>,
    pub limits: Option<Limits>,
}

/// One advertised metadata schema.
#[derive(Clone, Debug, PartialEq)]
pub struct MetadataSchemaInfo {
    pub id: String,
    pub uri: String,
}

/// The endpoint roots a provider advertises.
#[derive(Clone, Debug, PartialEq)]
pub struct Endpoints {
    pub identity: String,
    pub groups: String,
    pub notifications: String,
    pub tiers: String,
}

/// A group membership as listed for a user.
#[derive(Clone, Debug, PartialEq)]
pub struct UserJoinedGroup {
    pub group_id: String,
    pub host: Option<String>,
    pub name: String,
    pub avatar: Option<String>,
    pub joined_at: String,
}

/// A group.
#[derive(Clone, Debug, PartialEq)]
pub struct Group {
    pub id: String,
    pub name: String,
    pub description: Option<String>,
    pub avatar: Option<String>,
    pub join_policy: String,
    pub owner: String,
    pub privacy: GroupPrivacySettings,
    pub created_at: String,
    pub updated_at: String,
}

/// A group member with their roles.
#[derive(Clone, Debug, PartialEq)]
pub struct GroupMember {
    pub user_id: String,
    pub roles: Vec<String>,
    pub joined_at: String,
    pub display_name: Option<String>,
    pub avatar: Option<String>,
    pub roles_info: Option<Vec<GroupRole>>,
}

/// A custom group role.
#[derive(Clone, Debug, PartialEq)]
pub struct GroupRole {
    pub id: String,
    pub name: String,
    pub color: Option<String>,
    pub position: i32,
    pub created_at: String,
}

/// A request to create a custom role.
#[derive(Clone, Debug, PartialEq)]
pub struct CreateRoleRequest {
    pub name: String,
    pub color: Option<String>,
    pub position: Option<i32>,
}

/// A request to update a custom role.
#[derive(Clone, Debug, PartialEq)]
pub struct UpdateRoleRequest {
    pub name: Option<String>,
    pub color: Option<String>,
    pub position: Option<i32>,
}

/// The custom roles of a group.
#[derive(Clone, Debug, PartialEq)]
pub struct ListRolesResponse {
    pub roles: Vec<GroupRole>,
}

/// How widely a group is listed.
#[derive(Clone, Copy, Debug, PartialEq, Eq, Structural)]
pub enum GroupDiscoverability {
    Public,
    Unlisted,
    Private,
}

/// Who may invite members to a group.
#[derive(Clone, Copy, Debug, PartialEq, Eq, Structural)]
pub enum GroupInvitePermission {
    Owner,
    Admin,
    Member,
}

/// A group's privacy settings.
#[derive(Clone, Copy, Debug, PartialEq, Eq, Structural)]
pub struct GroupPrivacySettings {
    pub discoverability: GroupDiscoverability,
    pub member_list_visibility: VisibilityPolicy,
    pub invite_permission: GroupInvitePermission,
}

/// The kind of a channel.
#[derive(Clone, Copy, Debug, PartialEq, Eq, Structural)]
pub enum ChannelType {
    Text,
    Call,
}

/// Who can view and send in a channel.
#[derive(Clone, Debug, PartialEq)]
pub struct ChannelPermissions {
    pub view: Vec<String>,
    pub send: Vec<String>,
}

/// The message kinds allowed at the root and in replies.
#[derive(Clone, Debug, PartialEq)]
pub struct MessageTypeSettings {
    pub root_types: Vec<MessageType>,
    pub reply_types: Vec<MessageType>,
}

/// A channel's settings.
#[derive(Clone, Debug, PartialEq)]
pub struct ChannelSettings {
    pub permissions: ChannelPermissions,
    pub message_types: MessageTypeSettings,
}

/// A registration request.
#[derive(Clone, Debug, PartialEq)]
pub struct RegisterRequest {
    pub handle: String,
    pub password: String,
    pub device_public_key: Option<String>,
    pub device_name: Option<String>,
}

/// A login request.
#[derive(Clone, Debug, PartialEq)]
pub struct LoginRequest {
    pub handle: String,
    pub password: String,
    pub device_public_key: Option<String>,
    pub device_name: Option<String>,
}

/// A login's outcome: the user id and, when a device key was offered,
/// the key id the provider assigned to it.
#[derive(Clone, Debug, PartialEq)]
pub struct LoginResponse {
    pub user_id: String,
    pub key_id: Option<String>,
}

/// A request to create a group.
#[derive(Clone, Debug, PartialEq)]
pub struct CreateGroupRequest {
    pub id: String,
    pub name: String,
    pub description: Option<String>,
    pub avatar: Option<String>,
    pub join_policy: Option<String>,
}

/// A request to create a channel.
#[derive(Clone, Debug, PartialEq)]
pub struct CreateChannelRequest {
    pub name: String,
    pub topic: Option<String>,
    pub channel_type: Option<ChannelType>,
    pub discoverability: Option<Discoverability>,
    pub settings: Option<ChannelSettings>,
    pub tags: Option<Vec<String>>,
}

/// A request to update a channel.
#[derive(Clone, Debug, PartialEq)]
pub struct UpdateChannelRequest {
    pub name: Option<String>,
    pub topic: Option<String>,
    pub discoverability: Option<Discoverability>,
    pub settings: Option<ChannelSettings>,
    pub tags: Option<Vec<String>>,
}

/// A request to update a channel's settings.
#[derive(Clone, Debug, PartialEq)]
pub struct UpdateChannelSettingsRequest {
    pub permissions: Option<ChannelPermissions>,
    pub message_types: Option<MessageTypeSettings>,
}

/// A request to add a member to a group.
#[derive(Clone, Debug, PartialEq)]
pub struct AddMemberRequest {
    pub handle: String,
}

/// A request to update a group's settings.
#[derive(Clone, Debug, PartialEq)]
pub struct UpdateGroupSettingsRequest {
    pub name: Option<String>,
    pub description: Option<String>,
    pub avatar: Option<String>,
    pub join_policy: Option<String>,
}

/// A group's member listing, with the caller's own role.
#[derive(Clone, Debug, PartialEq)]
pub struct ListMembersResponse {
    pub members: Vec<GroupMember>,
    pub my_role: String,
}

/// A request to add, remove or set a member's role.
#[derive(Clone, Debug, PartialEq)]
pub struct UpdateMemberRolesRequest {
    pub operation: String,
    pub role: String,
}

/// A request to update a group's privacy settings.
#[derive(Clone, Debug, PartialEq)]
pub struct UpdateGroupPrivacyRequest {
    pub discoverability: Option<GroupDiscoverability>,
    pub member_list_visibility: Option<VisibilityPolicy>,
    pub invite_permission: Option<GroupInvitePermission>,
}

/// One page of channel messages.
#[derive(Clone, Debug, PartialEq)]
pub struct MessagesPage {
    pub items: Vec<ChannelMessage>,
    pub page: PageInfo,
}

/// A registered device key as the provider lists it.
#[derive(Clone, Debug, PartialEq)]
pub struct DeviceKey {
    pub key_id: String,
    pub user_handle: String,
    pub public_key: String,
    pub device_name: String,
    pub created_at: String,
    pub last_used_at: String,
    pub revoked: bool,
}

/// A request to register a device key.
#[derive(Clone, Debug, PartialEq)]
pub struct RegisterDeviceKeyRequest {
    pub public_key: String,
    pub device_name: String,
}

/// The provider's answer to a device-key registration.
#[derive(Clone, Debug, PartialEq)]
pub struct RegisterDeviceKeyResponse {
    pub key_id: String,
    pub created_at: String,
}

/// A public key as served by key discovery.
#[derive(Clone, Debug, PartialEq)]
pub struct DiscoveryKey {
    pub key_id: String,
    pub algorithm: String,
    pub public_key: String,
    pub created_at: String,
}

/// The key-discovery response for an actor.
#[derive(Clone, Debug, PartialEq)]
pub struct PublicKeyDiscoveryResponse {
    pub actor: String,
    pub keys: Vec<DiscoveryKey>,
    pub cache_until: String,
}

/// A request to create a message over HTTP.
#[derive(Clone, Debug, PartialEq)]
pub struct CreateMessageRequest {
    pub body: String,
    pub title: Option<String>,
    pub idempotency_key: Option<String>,
}

/// A channel message as returned by the history API.
#[derive(Clone, Debug, PartialEq)]
pub struct ChannelMessage {
    pub id: String,
    pub channel_id: String,
    pub sender_user_id: String,
    pub title: Option<String>,
    pub body: String,
    pub message_type: Option<MessageType>,
    pub created_at: String,
    pub parent_id: Option<String>,
    pub parent_message_type: Option<MessageType>,
    pub attachments: Vec<Attachment>,
}

/// A request to record a joined group on the home provider.
#[derive(Clone, Debug, PartialEq)]
pub struct AddJoinedGroupRequest {
    pub group_id: String,
    pub host: Option<String>,
    pub name: String,
    pub avatar: Option<String>,
}

/// The locally persisted session: the signed-in user and their keys.
#[derive(Clone, Debug, PartialEq)]
pub struct AuthSession {
    pub user_id: String,
    pub keys: Option<crate::signing::KeyPair>,
}

} // verus!

