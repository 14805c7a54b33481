//! Conversations and responses of exports.
//!
//! Named fields are optional, so that an absent field stays absent. Unknown
//! keys stay in the leftover maps.
use vstd::prelude::*;

use crate::paths::opt_view;
use crate::schema::{copied_atom, opt_atom, Atom, ExtraMap, JsonAtom};
use crate::search::copied_opt;

verus! {

/// An ISO 8601 string, a BSON date wrapper, or another JSON value.
#[derive(Debug, PartialEq)]
pub enum Timestamp {
    Iso(String),
    BsonDate { date: JsonAtom },
    Other(JsonAtom),
}

/// What a timestamp holds.
pub enum Stamp {
    Iso(Seq<char>),
    Bson(Atom),
    Other(Atom),
}

impl View for Timestamp {
    type V = Stamp;

    open spec fn view(&self) -> Stamp {
        match self {
            Timestamp::Iso(s) => Stamp::Iso(s@),
            Timestamp::BsonDate { date } => Stamp::Bson(date@),
            Timestamp::Other(a) => Stamp::Other(a@),
        }
    }
}

/// The view of an optional timestamp.
pub open spec fn opt_stamp(t: Option<Timestamp>) -> Option<Stamp> {
    match t {
        Some(x) => Some(x@),
        None => None,
    }
}

impl Timestamp {
    /// A copy of this timestamp.
    pub fn copied(&self) -> (r: Timestamp)
        ensures
            r@ == self@,
    {
        match self {
            Timestamp::Iso(s) => Timestamp::Iso(s.clone()),
            Timestamp::BsonDate { date } => Timestamp::BsonDate { date: date.copied() },
            Timestamp::Other(a) => Timestamp::Other(a.copied()),
        }
    }
}

/// A copy of an optional timestamp.
pub fn copied_stamp(t: &Option<Timestamp>) -> (r: Option<Timestamp>)
    ensures
        opt_stamp(r) == opt_stamp(*t),
{
    match t {
        Some(x) => Some(x.copied()),
        None => None,
    }
}

/// The timestamp of a JSON value: text is ISO 8601.
pub open spec fn stamp_of(a: Atom) -> Stamp {
    match a {
        Atom::Text(s) => Stamp::Iso(s),
        _ => Stamp::Other(a),
    }
}

/// The timestamp of a JSON value.
pub fn atom_to_timestamp(a: JsonAtom) -> (r: Timestamp)
    ensures
        r@ == stamp_of(a@),
{
    match a {
        JsonAtom::String(s) => Timestamp::Iso(s),
        other => Timestamp::Other(other),
    }
}

/// One conversation.
#[derive(Debug, PartialEq)]
pub struct Conversation {
    pub anon_user_id: Option<String>,
    pub asset_ids: Option<JsonAtom>,
    pub controller: Option<String>,
    pub create_time: Option<Timestamp>,
    pub id: Option<String>,
    pub leaf_response_id: Option<String>,
    pub media_types: Option<JsonAtom>,
    pub modify_time: Option<Timestamp>,
    pub root_asset_id: Option<String>,
    pub shared_with_team: Option<bool>,
    pub shared_with_user_ids: Option<JsonAtom>,
    pub starred: Option<bool>,
    pub summary: Option<String>,
    pub system_prompt_id: Option<String>,
    pub system_prompt_name: Option<String>,
    pub task_result_id: Option<String>,
    pub team_id: Option<String>,
    pub temporary: Option<bool>,
    pub title: Option<String>,
    pub user_id: Option<String>,
    pub x_user_id: Option<String>,
    /// The other keys.
    pub extra: ExtraMap,
}

/// What a conversation holds.
#[verifier::ext_equal]
pub struct ConversationView {
    pub anon_user_id: Option<Seq<char>>,
    pub asset_ids: Option<Atom>,
    pub controller: Option<Seq<char>>,
    pub create_time: Option<Stamp>,
    pub id: Option<Seq<char>>,
    pub leaf_response_id: Option<Seq<char>>,
    pub media_types: Option<Atom>,
    pub modify_time: Option<Stamp>,
    pub root_asset_id: Option<Seq<char>>,
    pub shared_with_team: Option<bool>,
    pub shared_with_user_ids: Option<Atom>,
    pub starred: Option<bool>,
    pub summary: Option<Seq<char>>,
    pub system_prompt_id: Option<Seq<char>>,
    pub system_prompt_name: Option<Seq<char>>,
    pub task_result_id: Option<Seq<char>>,
    pub team_id: Option<Seq<char>>,
    pub temporary: Option<bool>,
    pub title: Option<Seq<char>>,
    pub user_id: Option<Seq<char>>,
    pub x_user_id: Option<Seq<char>>,
    pub extra: Seq<(Seq<char>, Atom)>,
}

impl View for Conversation {
    type V = ConversationView;

    open spec fn view(&self) -> ConversationView {
        ConversationView {
            anon_user_id: opt_view(self.anon_user_id),
            asset_ids: opt_atom(self.asset_ids),
            controller: opt_view(self.controller),
            create_time: opt_stamp(self.create_time),
            id: opt_view(self.id),
            leaf_response_id: opt_view(self.leaf_response_id),
            media_types: opt_atom(self.media_types),
            modify_time: opt_stamp(self.modify_time),
            root_asset_id: opt_view(self.root_asset_id),
            shared_with_team: self.shared_with_team,
            shared_with_user_ids: opt_atom(self.shared_with_user_ids),
            starred: self.starred,
            summary: opt_view(self.summary),
            system_prompt_id: opt_view(self.system_prompt_id),
            system_prompt_name: opt_view(self.system_prompt_name),
            task_result_id: opt_view(self.task_result_id),
            team_id: opt_view(self.team_id),
            temporary: self.temporary,
            title: opt_view(self.title),
            user_id: opt_view(self.user_id),
            x_user_id: opt_view(self.x_user_id),
            extra: self.extra@,
        }
    }
}

impl Conversation {
    /// A copy of this conversation.
    pub fn copied(&self) -> (r: Conversation)
        ensures
            r@ == self@,
    {
        Conversation {
            anon_user_id: copied_opt(&self.anon_user_id),
            asset_ids: copied_atom(&self.asset_ids),
            controller: copied_opt(&self.controller),
            create_time: copied_stamp(&self.create_time),
            id: copied_opt(&self.id),
            leaf_response_id: copied_opt(&self.leaf_response_id),
            media_types: copied_atom(&self.media_types),
            modify_time: copied_stamp(&self.modify_time),
            root_asset_id: copied_opt(&self.root_asset_id),
            shared_with_team: self.shared_with_team,
            shared_with_user_ids: copied_atom(&self.shared_with_user_ids),
            starred: self.starred,
            summary: copied_opt(&self.summary),
            system_prompt_id: copied_opt(&self.system_prompt_id),
            system_prompt_name: copied_opt(&self.system_prompt_name),
            task_result_id: copied_opt(&self.task_result_id),
            team_id: copied_opt(&self.team_id),
            temporary: self.temporary,
            title: copied_opt(&self.title),
            user_id: copied_opt(&self.user_id),
            x_user_id: copied_opt(&self.x_user_id),
            extra: self.extra.copied(),
        }
    }
}

/// A conversation without fields.
pub open spec fn empty_conversation() -> ConversationView {
    ConversationView {
        anon_user_id: None,
        asset_ids: None,
        controller: None,
        create_time: None,
        id: None,
        leaf_response_id: None,
        media_types: None,
        modify_time: None,
        root_asset_id: None,
        shared_with_team: None,
        shared_with_user_ids: None,
        starred: None,
        summary: None,
        system_prompt_id: None,
        system_prompt_name: None,
        task_result_id: None,
        team_id: None,
        temporary: None,
        title: None,
        user_id: None,
        x_user_id: None,
        extra: Seq::empty(),
    }
}

impl Default for Conversation {
    fn default() -> (r: Conversation)
        ensures
            r@ == empty_conversation(),
    {
        Conversation {
            anon_user_id: None,
            asset_ids: None,
            controller: None,
            create_time: None,
            id: None,
            leaf_response_id: None,
            media_types: None,
            modify_time: None,
            root_asset_id: None,
            shared_with_team: None,
            shared_with_user_ids: None,
            starred: None,
            summary: None,
            system_prompt_id: None,
            system_prompt_name: None,
            task_result_id: None,
            team_id: None,
            temporary: None,
            title: None,
            user_id: None,
            x_user_id: None,
            extra: ExtraMap::new(),
        }
    }
}

/// One response.
#[derive(Debug, PartialEq)]
pub struct Response {
    pub _id: Option<String>,
    pub conversation_id: Option<String>,
    pub create_time: Option<Timestamp>,
    pub message: Option<JsonAtom>,
    pub metadata: Option<JsonAtom>,
    pub model: Option<String>,
    pub sender: Option<String>,
    pub parent_response_id: Option<String>,
    pub cited_web_search_results: Option<JsonAtom>,
    pub generated_image_urls: Option<JsonAtom>,
    pub file_attachments: Option<JsonAtom>,
    pub web_search_results: Option<JsonAtom>,
    pub thinking_trace: Option<JsonAtom>,
    pub thinking_start_time: Option<Timestamp>,
    pub thinking_end_time: Option<Timestamp>,
    pub agent_thinking_traces: Option<JsonAtom>,
    pub steps: Option<JsonAtom>,
    pub query: Option<JsonAtom>,
    pub query_type: Option<String>,
    pub xpost_ids: Option<JsonAtom>,
    pub webpage_urls: Option<JsonAtom>,
    pub card_attachments_json: Option<JsonAtom>,
    pub error: Option<JsonAtom>,
    /// The other keys.
    pub extra: ExtraMap,
}

/// What a response holds.
#[verifier::ext_equal]
pub struct ResponseView {
    pub _id: Option<Seq<char>>,
    pub conversation_id: Option<Seq<char>>,
    pub create_time: Option<Stamp>,
    pub message: Option<Atom>,
    pub metadata: Option<Atom>,
    pub model: Option<Seq<char>>,
    pub sender: Option<Seq<char>>,
    pub parent_response_id: Option<Seq<char>>,
    pub cited_web_search_results: Option<Atom>,
    pub generated_image_urls: Option<Atom>,
    pub file_attachments: Option<Atom>,
    pub web_search_results: Option<Atom>,
    pub thinking_trace: Option<Atom>,
    pub thinking_start_time: Option<Stamp>,
    pub thinking_end_time: Option<Stamp>,
    pub agent_thinking_traces: Option<Atom>,
    pub steps: Option<Atom>,
    pub query: Option<Atom>,
    pub query_type: Option<Seq<char>>,
    pub xpost_ids: Option<Atom>,
    pub webpage_urls: Option<Atom>,
    pub card_attachments_json: Option<Atom>,
    pub error: Option<Atom>,
    pub extra: Seq<(Seq<char>, Atom)>,
}

impl View for Response {
    type V = ResponseView;

    open spec fn view(&self) -> ResponseView {
        ResponseView {
            _id: opt_view(self._id),
            conversation_id: opt_view(self.conversation_id),
            create_time: opt_stamp(self.create_time),
            message: opt_atom(self.message),
            metadata: opt_atom(self.metadata),
            model: opt_view(self.model),
            sender: opt_view(self.sender),
            parent_response_id: opt_view(self.parent_response_id),
            cited_web_search_results: opt_atom(self.cited_web_search_results),
            generated_image_urls: opt_atom(self.generated_image_urls),
            file_attachments: opt_atom(self.file_attachments),
            web_search_results: opt_atom(self.web_search_results),
            thinking_trace: opt_atom(self.thinking_trace),
            thinking_start_time: opt_stamp(self.thinking_start_time),
            thinking_end_time: opt_stamp(self.thinking_end_time),
            agent_thinking_traces: opt_atom(self.agent_thinking_traces),
            steps: opt_atom(self.steps),
            query: opt_atom(self.query),
            query_type: opt_view(self.query_type),
            xpost_ids: opt_atom(self.xpost_ids),
            webpage_urls: opt_atom(self.webpage_urls),
            card_attachments_json: opt_atom(self.card_attachments_json),
            error: opt_atom(self.error),
            extra: self.extra@,
        }
    }
}

impl Response {
    /// A copy of this response.
    pub fn copied(&self) -> (r: Response)
        ensures
            r@ == self@,
    {
        Response {
            _id: copied_opt(&self._id),
            conversation_id: copied_opt(&self.conversation_id),
            create_time: copied_stamp(&self.create_time),
            message: copied_atom(&self.message),
            metadata: copied_atom(&self.metadata),
            model: copied_opt(&self.model),
            sender: copied_opt(&self.sender),
            parent_response_id: copied_opt(&self.parent_response_id),
            cited_web_search_results: copied_atom(&self.cited_web_search_results),
            generated_image_urls: copied_atom(&self.generated_image_urls),
            file_attachments: copied_atom(&self.file_attachments),
            web_search_results: copied_atom(&self.web_search_results),
            thinking_trace: copied_atom(&self.thinking_trace),
            thinking_start_time: copied_stamp(&self.thinking_start_time),
            thinking_end_time: copied_stamp(&self.thinking_end_time),
            agent_thinking_traces: copied_atom(&self.agent_thinking_traces),
            steps: copied_atom(&self.steps),
            query: copied_atom(&self.query),
            query_type: copied_opt(&self.query_type),
            xpost_ids: copied_atom(&self.xpost_ids),
            webpage_urls: copied_atom(&self.webpage_urls),
            card_attachments_json: copied_atom(&self.card_attachments_json),
            error: copied_atom(&self.error),
            extra: self.extra.copied(),
        }
    }
}

/// A response without fields.
pub open spec fn empty_response() -> ResponseView {
    ResponseView {
        _id: None,
        conversation_id: None,
        create_time: None,
        message: None,
        metadata: None,
        model: None,
        sender: None,
        parent_response_id: None,
        cited_web_search_results: None,
        generated_image_urls: None,
        file_attachments: None,
        web_search_results: None,
        thinking_trace: None,
        thinking_start_time: None,
        thinking_end_time: None,
        agent_thinking_traces: None,
        steps: None,
        query: None,
        query_type: None,
        xpost_ids: None,
        webpage_urls: None,
        card_attachments_json: None,
        error: None,
        extra: Seq::empty(),
    }
}

impl Default for Response {
    fn default() -> (r: Response)
        ensures
            r@ == empty_response(),
    {
        Response {
            _id: None,
            conversation_id: None,
            create_time: None,
            message: None,
            metadata: None,
            model: None,
            sender: None,
            parent_response_id: None,
            cited_web_search_results: None,
            generated_image_urls: None,
            file_attachments: None,
            web_search_results: None,
            thinking_trace: None,
            thinking_start_time: None,
            thinking_end_time: None,
            agent_thinking_traces: None,
            steps: None,
            query: None,
            query_type: None,
            xpost_ids: None,
            webpage_urls: None,
            card_attachments_json: None,
            error: None,
            extra: ExtraMap::new(),
        }
    }
}

/// A response with its share link.
#[derive(Debug, PartialEq)]
pub struct ResponseItem {
    pub response: Response,
    pub share_link: Option<JsonAtom>,
    pub extra: ExtraMap,
}

/// What a response with its share link holds.
#[verifier::ext_equal]
pub struct ResponseItemView {
    pub response: ResponseView,
    pub share_link: Option<Atom>,
    pub extra: Seq<(Seq<char>, Atom)>,
}

impl View for ResponseItem {
    type V = ResponseItemView;

    open spec fn view(&self) -> ResponseItemView {
        ResponseItemView {
            response: self.response@,
            share_link: opt_atom(self.share_link),
            extra: self.extra@,
        }
    }
}

impl ResponseItem {
    /// A copy of this response.
    pub fn copied(&self) -> (r: ResponseItem)
        ensures
            r@ == self@,
    {
        ResponseItem {
            response: self.response.copied(),
            share_link: copied_atom(&self.share_link),
            extra: self.extra.copied(),
        }
    }
}

/// What responses hold, in order.
pub open spec fn response_views(v: Seq<ResponseItem>) -> Seq<ResponseItemView> {
    Seq::new(v.len(), |i: int| v[i]@)
}

/// A conversation with its responses.
#[derive(Debug, PartialEq)]
pub struct ConversationItem {
    pub conversation: Conversation,
    pub responses: Vec<ResponseItem>,
    pub extra: ExtraMap,
}

/// What a conversation with its responses holds.
#[verifier::ext_equal]
pub struct ItemView {
    pub conversation: ConversationView,
    pub responses: Seq<ResponseItemView>,
    pub extra: Seq<(Seq<char>, Atom)>,
}

impl View for ConversationItem {
    type V = ItemView;

    open spec fn view(&self) -> ItemView {
        ItemView {
            conversation: self.conversation@,
            responses: response_views(self.responses@),
            extra: self.extra@,
        }
    }
}

impl ConversationItem {
    /// A copy of this conversation.
    pub fn copied(&self) -> (r: ConversationItem)
        ensures
            r@ == self@,
    {
        let mut responses: Vec<ResponseItem> = Vec::new();
        let mut i: usize = 0;
        while i < self.responses.len()
            invariant
                i <= self.responses@.len(),
                responses@.len() == i,
                forall|k: int| 0 <= k < i ==> (#[trigger] responses@[k])@ == self.responses@[k]@,
            decreases self.responses.len() - i,
        {
            responses.push(self.responses[i].copied());
            i = i + 1;
        }
        proof {
            assert(response_views(responses@) =~= response_views(self.responses@));
        }
        ConversationItem {
            conversation: self.conversation.copied(),
            responses,
            extra: self.extra.copied(),
        }
    }
}

/// A response with nothing around it.
pub open spec fn bare(r: ResponseView) -> ResponseItemView {
    ResponseItemView { response: r, share_link: None, extra: Seq::empty() }
}

/// A response with nothing around it.
pub fn bare_response(response: Response) -> (r: ResponseItem)
    ensures
        r@ == bare(response@),
{
    ResponseItem { response, share_link: None, extra: ExtraMap::new() }
}

/// A conversation with responses and no other keys.
pub open spec fn plain_item(c: ConversationView, responses: Seq<ResponseItemView>) -> ItemView {
    ItemView { conversation: c, responses, extra: Seq::empty() }
}

/// A conversation with responses and no other keys.
pub fn item_of(conversation: Conversation, responses: Vec<ResponseItem>) -> (r: ConversationItem)
    ensures
        r@ == plain_item(conversation@, response_views(responses@)),
{
    ConversationItem { conversation, responses, extra: ExtraMap::new() }
}

/// The auth file of an export. Its values are secret.
#[derive(Debug, PartialEq)]
pub struct AuthFile {
    pub api_keys: Option<JsonAtom>,
    pub invitations: Option<JsonAtom>,
    pub management_api_keys: Option<JsonAtom>,
    pub sessions: Option<JsonAtom>,
    pub team_acls: Option<JsonAtom>,
    pub teams: Option<JsonAtom>,
    pub user: Option<JsonAtom>,
    pub extra: ExtraMap,
}

/// The billing file of an export.
#[derive(Debug, PartialEq)]
pub struct BillingFile {
    pub balance_map: Option<JsonAtom>,
    pub extra: ExtraMap,
}

/// The backend file of an export.
#[derive(Debug, PartialEq)]
pub struct BackendExport {
    pub conversations: Vec<ConversationItem>,
    pub media_posts: Vec<JsonAtom>,
    pub projects: Vec<JsonAtom>,
    pub tasks: Vec<JsonAtom>,
    pub extra: ExtraMap,
}

/// The responses of an item are these texts, in order.
pub open spec fn says(item: ItemView, texts: Seq<Seq<char>>) -> bool {
    &&& item.responses.len() == texts.len()
    &&& forall|j: int|
        0 <= j < texts.len() ==> (#[trigger] item.responses[j]).response.message == Some(
            Atom::Text(texts[j]),
        )
}

} // verus!
