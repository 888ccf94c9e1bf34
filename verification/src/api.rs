use vstd::prelude::*;

use crate::auth::{pairs_view, string_pair};
use crate::text::{all_char, chars_of, has_run, lemma_shorter_run, longest_run};

verus! {

/// A video of the user's channel.
#[derive(Debug, Clone, PartialEq, Eq)]
pub struct Video {
    pub id: String,
    pub title: String,
    pub thumbnail_url: Option<String>,
}

/// A copy of an optional string.
pub fn copy_opt_string(s: &Option<String>) -> (r: Option<String>)
    ensures
        r == *s,
{
    match s {
        Some(v) => Some(v.clone()),
        None => None,
    }
}

impl Video {
    /// A copy of the video.
    pub fn copy(&self) -> (r: Video)
        ensures
            r == *self,
    {
        Video {
            id: self.id.clone(),
            title: self.title.clone(),
            thumbnail_url: copy_opt_string(&self.thumbnail_url),
        }
    }

    /// The line shown under the video's title in the list.
    pub fn row_subtitle(&self) -> (s: String)
        ensures
            s@ == "Video ID: "@ + self.id@,
    {
        let mut s = String::from_str("Video ID: ");
        s.append(self.id.as_str());
        s
    }
}

/// A copy of a list of videos.
pub fn copy_videos(videos: &Vec<Video>) -> (r: Vec<Video>)
    ensures
        r@ == videos@,
{
    let mut r: Vec<Video> = Vec::new();
    for i in 0..videos.len()
        invariant
            r@ == videos@.take(i as int),
    {
        r.push(videos[i].copy());
        assert(r@ =~= videos@.take(i + 1));
    }
    assert(videos@.take(videos.len() as int) =~= videos@);
    r
}

/// A channel in the reply of the `channels` endpoint: the id of the playlist
/// that holds the channel's uploads.
#[derive(Debug, Clone)]
pub struct ChannelItem {
    pub uploads_playlist_id: String,
}

/// The reply of the `channels` endpoint.
#[derive(Debug, Clone)]
pub struct ChannelResponse {
    pub items: Vec<ChannelItem>,
}

/// The thumbnails of a playlist item: the URL of the default one, if any.
#[derive(Debug, Clone)]
pub struct Thumbnails {
    pub default_url: Option<String>,
}

/// An entry of the uploads playlist.
#[derive(Debug, Clone)]
pub struct PlaylistItem {
    pub video_id: String,
    pub title: String,
    pub thumbnails: Option<Thumbnails>,
}

/// One page of the reply of the `playlistItems` endpoint.
#[derive(Debug, Clone)]
pub struct PlaylistItemsResponse {
    pub items: Vec<PlaylistItem>,
    pub next_page_token: Option<String>,
}

/// The YouTube Data API endpoints that the application calls.
#[derive(Debug, Clone, Copy, PartialEq, Eq, Structural)]
pub enum Endpoint {
    /// `GET youtube/v3/channels`
    Channels,
    /// `GET youtube/v3/playlistItems`
    PlaylistItems,
    /// `POST upload/youtube/v3/captions`, a multipart upload
    Captions,
}

/// The URL of an endpoint.
pub open spec fn endpoint_url(e: Endpoint) -> Seq<char> {
    match e {
        Endpoint::Channels => "https://www.googleapis.com/youtube/v3/channels"@,
        Endpoint::PlaylistItems => "https://www.googleapis.com/youtube/v3/playlistItems"@,
        Endpoint::Captions => "https://www.googleapis.com/upload/youtube/v3/captions?uploadType=multipart&part=snippet"@,
    }
}

impl Endpoint {
    /// The URL of the endpoint.
    pub fn url(&self) -> (u: &'static str)
        ensures
            u@ == endpoint_url(*self),
    {
        match self {
            Endpoint::Channels => "https://www.googleapis.com/youtube/v3/channels",
            Endpoint::PlaylistItems => "https://www.googleapis.com/youtube/v3/playlistItems",
            Endpoint::Captions => "https://www.googleapis.com/upload/youtube/v3/captions?uploadType=multipart&part=snippet",
        }
    }
}

/// A request to the API: the endpoint, the bearer token that authorizes it,
/// and the query parameters.
#[derive(Debug)]
pub struct ApiRequest {
    pub endpoint: Endpoint,
    pub bearer_token: String,
    pub query: Vec<(String, String)>,
}

/// An `ApiRequest` as text.
pub struct RequestView {
    pub endpoint: Endpoint,
    pub bearer_token: Seq<char>,
    pub query: Seq<(Seq<char>, Seq<char>)>,
}

impl View for ApiRequest {
    type V = RequestView;

    open spec fn view(&self) -> RequestView {
        RequestView {
            endpoint: self.endpoint,
            bearer_token: self.bearer_token@,
            query: pairs_view(self.query@),
        }
    }
}

/// Why a call to the API failed.
#[derive(Debug, Clone)]
pub enum ApiError {
    /// The request could not be sent, or its reply could not be read.
    Transport(String),
    /// The endpoint answered with a status outside 200..=299.
    Status { endpoint: Endpoint, status: u16, body: String },
    /// The reply's body is not what the endpoint documents.
    Malformed { endpoint: Endpoint, detail: String, body: String },
    /// The account has no channel.
    NoChannel,
}

/// An HTTP status that reports success.
pub open spec fn is_success_status(status: u16) -> bool {
    200 <= status <= 299
}

/// Whether an HTTP status reports success.
pub fn is_success(status: u16) -> (b: bool)
    ensures
        b == is_success_status(status),
{
    200 <= status && status <= 299
}

/// The query that finds the uploads playlist of the user's own channel.
pub open spec fn channel_query() -> Seq<(Seq<char>, Seq<char>)> {
    seq![("part"@, "contentDetails"@), ("mine"@, "true"@)]
}

/// The query for one page of a playlist: the first page has no page token.
pub open spec fn page_query(playlist_id: Seq<char>, page_token: Option<Seq<char>>) -> Seq<
    (Seq<char>, Seq<char>),
> {
    seq![("part"@, "snippet"@), ("playlistId"@, playlist_id), ("maxResults"@, "50"@)]
        + match page_token {
        Some(t) => seq![("pageToken"@, t)],
        None => Seq::empty(),
    }
}

/// The request that finds the uploads playlist.
pub open spec fn channel_request(token: Seq<char>) -> RequestView {
    RequestView { endpoint: Endpoint::Channels, bearer_token: token, query: channel_query() }
}

/// The request for one page of a playlist.
pub open spec fn page_request(
    token: Seq<char>,
    playlist_id: Seq<char>,
    page_token: Option<Seq<char>>,
) -> RequestView {
    RequestView {
        endpoint: Endpoint::PlaylistItems,
        bearer_token: token,
        query: page_query(playlist_id, page_token),
    }
}

/// The text of an optional string.
pub open spec fn opt_view(s: Option<String>) -> Option<Seq<char>> {
    match s {
        Some(v) => Some(v@),
        None => None,
    }
}

/// The video that a playlist entry stands for; its thumbnail is the
/// default thumbnail, when the entry has one.
pub open spec fn video_of(item: PlaylistItem) -> Video {
    Video {
        id: item.video_id,
        title: item.title,
        thumbnail_url: match item.thumbnails {
            Some(t) => t.default_url,
            None => None,
        },
    }
}

/// The videos that a page of playlist entries stands for, in order.
pub open spec fn videos_of(items: Seq<PlaylistItem>) -> Seq<Video> {
    items.map_values(|item: PlaylistItem| video_of(item))
}

/// The video that a playlist entry stands for.
pub fn video_of_item(item: &PlaylistItem) -> (v: Video)
    ensures
        v == video_of(*item),
{
    let thumbnail_url = match &item.thumbnails {
        Some(t) => copy_opt_string(&t.default_url),
        None => None,
    };
    Video { id: item.video_id.clone(), title: item.title.clone(), thumbnail_url }
}

/// `videos` followed by the videos of the given playlist entries.
pub fn append_videos(videos: &mut Vec<Video>, items: &Vec<PlaylistItem>)
    ensures
        final(videos)@ == old(videos)@ + videos_of(items@),
{
    let ghost start = videos@;
    for i in 0..items.len()
        invariant
            videos@ == start + videos_of(items@.take(i as int)),
    {
        videos.push(video_of_item(&items[i]));
        assert(videos_of(items@.take(i + 1)) =~= videos_of(items@.take(i as int)).push(
            video_of(items@[i as int]),
        ));
    }
    assert(items@.take(items.len() as int) =~= items@);
}

/// The request that finds the uploads playlist, authorized by `token`.
pub fn make_channel_request(token: &String) -> (r: ApiRequest)
    ensures
        r@ == channel_request(token@),
{
    let mut query: Vec<(String, String)> = Vec::new();
    query.push(string_pair("part", "contentDetails"));
    query.push(string_pair("mine", "true"));
    assert(pairs_view(query@) =~= channel_query());
    ApiRequest { endpoint: Endpoint::Channels, bearer_token: token.clone(), query }
}

/// The request for the page of `playlist_id` that `page_token` names (the
/// first page when there is none), authorized by `token`.
pub fn make_page_request(token: &String, playlist_id: &String, page_token: &Option<String>) -> (r:
    ApiRequest)
    ensures
        r@ == page_request(token@, playlist_id@, opt_view(*page_token)),
{
    let mut query: Vec<(String, String)> = Vec::new();
    query.push(string_pair("part", "snippet"));
    query.push(string_pair("playlistId", playlist_id.as_str()));
    query.push(string_pair("maxResults", "50"));
    match page_token {
        Some(t) => {
            query.push(string_pair("pageToken", t.as_str()));
        },
        None => {},
    }
    assert(pairs_view(query@) =~= page_query(playlist_id@, opt_view(*page_token)));
    ApiRequest { endpoint: Endpoint::PlaylistItems, bearer_token: token.clone(), query }
}

/// What came back for a request: a transport failure, or the status and
/// body of the reply together with the body parsed as the endpoint's JSON
/// (or the parser's message when it is not).
#[derive(Debug)]
pub enum Reply {
    Failed(String),
    Channels { status: u16, body: String, parsed: Result<ChannelResponse, String> },
    PlaylistItems { status: u16, body: String, parsed: Result<PlaylistItemsResponse, String> },
}

/// Where a fetch of the channel's videos stands.
#[derive(Debug)]
pub enum FetchState {
    /// The request for the uploads playlist is out.
    AwaitingChannel,
    /// The request for a page of the uploads playlist is out; `videos` are
    /// those of the pages before it, and `page_token` names the page asked for.
    AwaitingPage { playlist_id: String, videos: Vec<Video>, page_token: Option<String> },
    /// The fetch is over.
    Finished,
}

/// What the caller does next.
#[derive(Debug)]
pub enum FetchAction {
    /// Send this request and hand its reply back.
    Send(ApiRequest),
    /// The fetch is over, with this outcome.
    Finish(Result<Vec<Video>, ApiError>),
}

/// A `FetchState` as text.
pub enum StateView {
    AwaitingChannel,
    AwaitingPage { playlist_id: Seq<char>, videos: Seq<Video>, page_token: Option<Seq<char>> },
    Finished,
}

/// A `FetchAction` as text.
pub enum ActionView {
    Send(RequestView),
    Finish(Result<Seq<Video>, ApiError>),
}

impl View for FetchState {
    type V = StateView;

    open spec fn view(&self) -> StateView {
        match self {
            FetchState::AwaitingChannel => StateView::AwaitingChannel,
            FetchState::AwaitingPage { playlist_id, videos, page_token } => StateView::AwaitingPage {
                playlist_id: playlist_id@,
                videos: videos@,
                page_token: opt_view(*page_token),
            },
            FetchState::Finished => StateView::Finished,
        }
    }
}

impl View for FetchAction {
    type V = ActionView;

    open spec fn view(&self) -> ActionView {
        match self {
            FetchAction::Send(r) => ActionView::Send(r@),
            FetchAction::Finish(Ok(v)) => ActionView::Finish(Ok(v@)),
            FetchAction::Finish(Err(e)) => ActionView::Finish(Err(*e)),
        }
    }
}

/// The reply answers the request that `state` waits for.
pub open spec fn reply_fits(state: StateView, reply: Reply) -> bool {
    match state {
        StateView::AwaitingChannel => reply is Failed || reply is Channels,
        StateView::AwaitingPage { .. } => reply is Failed || reply is PlaylistItems,
        StateView::Finished => false,
    }
}

/// The start of a fetch: a non-empty cache answers at once; otherwise the
/// uploads playlist is looked up.
pub open spec fn fetch_start(cache: Seq<Video>, token: Seq<char>) -> (StateView, ActionView) {
    if cache.len() > 0 {
        (StateView::Finished, ActionView::Finish(Ok(cache)))
    } else {
        (StateView::AwaitingChannel, ActionView::Send(channel_request(token)))
    }
}

/// The outcome of a fetch that failed.
pub open spec fn failed(cache: Seq<Video>, e: ApiError) -> (Seq<Video>, StateView, ActionView) {
    (cache, StateView::Finished, ActionView::Finish(Err(e)))
}

/// One step of a fetch: the cache, state and action after `reply` arrives
/// in `state`. A reply whose status is not a success, or whose body does not
/// parse, ends the fetch with an error; the first channel's uploads playlist
/// is then read page by page, following each page's next-page token, and
/// when a page has none the videos of all pages, in order, are the outcome
/// and become the cache. A failure leaves the cache as it was.
pub open spec fn fetch_step(
    cache: Seq<Video>,
    token: Seq<char>,
    state: StateView,
    reply: Reply,
) -> (Seq<Video>, StateView, ActionView) {
    match reply {
        Reply::Failed(m) => failed(cache, ApiError::Transport(m)),
        Reply::Channels { status, body, parsed } => if !is_success_status(status) {
            failed(cache, ApiError::Status { endpoint: Endpoint::Channels, status, body })
        } else {
            match parsed {
                Err(detail) => failed(
                    cache,
                    ApiError::Malformed { endpoint: Endpoint::Channels, detail, body },
                ),
                Ok(resp) => if resp.items@.len() == 0 {
                    failed(cache, ApiError::NoChannel)
                } else {
                    let playlist_id = resp.items@[0].uploads_playlist_id@;
                    (
                        cache,
                        StateView::AwaitingPage { playlist_id, videos: Seq::empty(), page_token: None },
                        ActionView::Send(page_request(token, playlist_id, None)),
                    )
                },
            }
        },
        Reply::PlaylistItems { status, body, parsed } => if !is_success_status(status) {
            failed(cache, ApiError::Status { endpoint: Endpoint::PlaylistItems, status, body })
        } else {
            match parsed {
                Err(detail) => failed(
                    cache,
                    ApiError::Malformed { endpoint: Endpoint::PlaylistItems, detail, body },
                ),
                Ok(resp) => {
                    let playlist_id = match state {
                        StateView::AwaitingPage { playlist_id, .. } => playlist_id,
                        _ => Seq::empty(),
                    };
                    let before = match state {
                        StateView::AwaitingPage { videos, .. } => videos,
                        _ => Seq::empty(),
                    };
                    let videos = before + videos_of(resp.items@);
                    match resp.next_page_token {
                        Some(t) => (
                            cache,
                            StateView::AwaitingPage { playlist_id, videos, page_token: Some(t@) },
                            ActionView::Send(page_request(token, playlist_id, Some(t@))),
                        ),
                        None => (videos, StateView::Finished, ActionView::Finish(Ok(videos))),
                    }
                },
            }
        },
    }
}

/// A client of the YouTube Data API for one signed-in user, with the videos
/// of the last completed fetch.
#[derive(Debug)]
pub struct YouTubeClient {
    access_token: String,
    cached_videos: Vec<Video>,
}

/// What a `YouTubeClient` holds.
pub struct ClientView {
    pub access_token: Seq<char>,
    pub cache: Seq<Video>,
}

impl View for YouTubeClient {
    type V = ClientView;

    closed spec fn view(&self) -> ClientView {
        ClientView { access_token: self.access_token@, cache: self.cached_videos@ }
    }
}

impl YouTubeClient {
    /// A client that authorizes its requests with `access_token`; nothing is cached.
    pub fn new(access_token: String) -> (c: YouTubeClient)
        ensures
            c@.access_token == access_token@,
            c@.cache == Seq::<Video>::empty(),
    {
        YouTubeClient { access_token, cached_videos: Vec::new() }
    }

    /// Starts a fetch of the channel's videos.
    pub fn begin_fetch(&self) -> (r: (FetchState, FetchAction))
        ensures
            (r.0@, r.1@) == fetch_start(self@.cache, self@.access_token),
    {
        if self.cached_videos.len() > 0 {
            (FetchState::Finished, FetchAction::Finish(Ok(copy_videos(&self.cached_videos))))
        } else {
            (FetchState::AwaitingChannel, FetchAction::Send(make_channel_request(&self.access_token)))
        }
    }

    /// Takes the reply to the request of a fetch one step further.
    pub fn advance_fetch(&mut self, state: FetchState, reply: Reply) -> (r: (FetchState, FetchAction))
        requires
            reply_fits(state@, reply),
        ensures
            final(self)@.access_token == old(self)@.access_token,
            (final(self)@.cache, r.0@, r.1@) == fetch_step(
                old(self)@.cache,
                old(self)@.access_token,
                state@,
                reply,
            ),
    {
        match reply {
            Reply::Failed(m) => (FetchState::Finished, FetchAction::Finish(Err(ApiError::Transport(m)))),
            Reply::Channels { status, body, parsed } => {
                if !is_success(status) {
                    return (
                        FetchState::Finished,
                        FetchAction::Finish(
                            Err(ApiError::Status { endpoint: Endpoint::Channels, status, body }),
                        ),
                    );
                }
                match parsed {
                    Err(detail) => (
                        FetchState::Finished,
                        FetchAction::Finish(
                            Err(ApiError::Malformed { endpoint: Endpoint::Channels, detail, body }),
                        ),
                    ),
                    Ok(resp) => {
                        if resp.items.len() == 0 {
                            return (
                                FetchState::Finished,
                                FetchAction::Finish(Err(ApiError::NoChannel)),
                            );
                        }
                        let playlist_id = resp.items[0].uploads_playlist_id.clone();
                        let page_token: Option<String> = None;
                        let request = make_page_request(&self.access_token, &playlist_id, &page_token);
                        (
                            FetchState::AwaitingPage { playlist_id, videos: Vec::new(), page_token },
                            FetchAction::Send(request),
                        )
                    },
                }
            },
            Reply::PlaylistItems { status, body, parsed } => {
                if !is_success(status) {
                    return (
                        FetchState::Finished,
                        FetchAction::Finish(
                            Err(ApiError::Status { endpoint: Endpoint::PlaylistItems, status, body }),
                        ),
                    );
                }
                match parsed {
                    Err(detail) => (
                        FetchState::Finished,
                        FetchAction::Finish(
                            Err(
                                ApiError::Malformed {
                                    endpoint: Endpoint::PlaylistItems,
                                    detail,
                                    body,
                                },
                            ),
                        ),
                    ),
                    Ok(resp) => {
                        let (playlist_id, mut videos) = match state {
                            FetchState::AwaitingPage { playlist_id, videos, .. } => (
                                playlist_id,
                                videos,
                            ),
                            _ => (String::new(), Vec::new()),
                        };
                        append_videos(&mut videos, &resp.items);
                        match resp.next_page_token {
                            Some(t) => {
                                let page_token = Some(t);
                                let request = make_page_request(
                                    &self.access_token,
                                    &playlist_id,
                                    &page_token,
                                );
                                (
                                    FetchState::AwaitingPage { playlist_id, videos, page_token },
                                    FetchAction::Send(request),
                                )
                            },
                            None => {
                                self.cached_videos = copy_videos(&videos);
                                (FetchState::Finished, FetchAction::Finish(Ok(videos)))
                            },
                        }
                    },
                }
            },
        }
    }

    /// Forgets the cached videos, so that the next fetch asks the API again.
    pub fn clear_cache(&mut self)
        ensures
            final(self)@.access_token == old(self)@.access_token,
            final(self)@.cache == Seq::<Video>::empty(),
    {
        self.cached_videos = Vec::new();
    }
}

/// The caption track that an upload creates for a video.
#[derive(Debug, Clone)]
pub struct CaptionSnippet {
    pub video_id: String,
    pub language: String,
    /// The track's name, `<language> - <video id>`.
    pub name: String,
    pub is_draft: bool,
}

/// An upload of a caption track: the endpoint, the bearer token that
/// authorizes it, and the track's snippet, sent as the JSON body.
#[derive(Debug)]
pub struct CaptionUpload {
    pub endpoint: Endpoint,
    pub bearer_token: String,
    pub snippet: CaptionSnippet,
    /// The caption track itself: the text of the SubRip file.
    pub media: String,
}

impl YouTubeClient {
    /// The upload that creates a published caption track in `language` for
    /// the video `video_id`, with the SubRip text `srt_content` as the track.
    pub fn caption_upload(&self, video_id: &str, srt_content: &str, language: &str) -> (u:
        CaptionUpload)
        ensures
            u.endpoint == Endpoint::Captions,
            u.bearer_token@ == self@.access_token,
            u.snippet.video_id@ == video_id@,
            u.snippet.language@ == language@,
            u.snippet.name@ == language@ + " - "@ + video_id@,
            !u.snippet.is_draft,
            u.media@ == srt_content@,
    {
        let mut name = String::from_str(language);
        name.append(" - ");
        name.append(video_id);
        CaptionUpload {
            endpoint: Endpoint::Captions,
            bearer_token: self.access_token.clone(),
            snippet: CaptionSnippet {
                video_id: String::from_str(video_id),
                language: String::from_str(language),
                name,
                is_draft: false,
            },
            media: String::from_str(srt_content),
        }
    }
}

/// A boundary of a caption upload's body: `tubesub` followed by `k`
/// underscores.
pub open spec fn caption_boundary(k: nat) -> Seq<char> {
    seq!['t', 'u', 'b', 'e', 's', 'u', 'b'] + Seq::new(k, |i: int| '_')
}

/// The line that opens a part, for the boundary `boundary`.
pub open spec fn delimiter(boundary: Seq<char>) -> Seq<char> {
    seq!['-', '-'] + boundary
}

/// `pattern` occurs somewhere in `s`.
pub open spec fn occurs(s: Seq<char>, pattern: Seq<char>) -> bool {
    exists|i: int| 0 <= i && i + pattern.len() <= s.len() && #[trigger] s.subrange(i, i + pattern.len()) == pattern
}

/// The longest boundary that a `multipart` body may have.
pub open spec fn max_boundary_len() -> int {
    70
}

/// The `multipart/related` body of a caption upload with the boundary
/// `boundary`: the JSON metadata, then the caption track as an octet stream.
pub open spec fn multipart_related(
    boundary: Seq<char>,
    metadata: Seq<char>,
    media: Seq<char>,
) -> Seq<char> {
    "--"@ + boundary + "\r\nContent-Type: application/json; charset=UTF-8\r\n\r\n"@ + metadata
        + "\r\n--"@ + boundary + "\r\nContent-Type: application/octet-stream\r\n\r\n"@ + media
        + "\r\n--"@ + boundary + "--\r\n"@
}

/// The delimiter of a boundary with `k` underscores can only occur where
/// `k` underscores stand in a row.
proof fn lemma_delimiter_needs_run(s: Seq<char>, k: nat)
    requires
        !has_run(s, '_', k as int),
    ensures
        !occurs(s, delimiter(caption_boundary(k))),
{
    let d = delimiter(caption_boundary(k));
    if occurs(s, d) {
        let i = choose|i: int| 0 <= i && i + d.len() <= s.len() && #[trigger] s.subrange(i, i + d.len()) == d;
        let run = s.subrange(i + 9, i + 9 + k);
        assert forall|j: int| 0 <= j < k implies #[trigger] run[j] == '_' by {
            assert(run[j] == s.subrange(i, i + d.len())[j + 9]);
            assert(d[j + 9] == '_');
        }
        assert(all_char(run, '_'));
        assert(has_run(s, '_', k as int));
    }
}

/// The body of a caption upload and the boundary between its parts.
#[derive(Debug)]
pub struct MultipartBody {
    pub boundary: String,
    pub body: String,
}

impl MultipartBody {
    /// The `Content-Type` of the body.
    pub fn content_type(&self) -> (t: String)
        ensures
            t@ == "multipart/related; boundary="@ + self.boundary@,
    {
        let mut t = String::from_str("multipart/related; boundary=");
        t.append(self.boundary.as_str());
        t
    }
}

impl CaptionUpload {
    /// The body of the upload, given the snippet written as JSON: the
    /// metadata part, then the caption track. Its boundary is `tubesub`
    /// followed by one underscore more than the longest run of underscores
    /// in either part, so that no part holds a delimiter; there is none when
    /// that boundary would be longer than 70 characters, which takes a run
    /// of 63 underscores.
    pub fn multipart_body(&self, metadata_json: &str) -> (r: Option<MultipartBody>)
        ensures
            r is None <==> has_run(metadata_json@, '_', 63) || has_run(self.media@, '_', 63),
            r matches Some(m) ==> {
                &&& exists|k: nat|
                    {
                        &&& 1 <= k <= 63
                        &&& m.boundary@ == caption_boundary(k)
                        &&& !has_run(metadata_json@, '_', k as int)
                        &&& !has_run(self.media@, '_', k as int)
                        &&& has_run(metadata_json@, '_', k - 1) || has_run(self.media@, '_', k - 1)
                    }
                &&& m.boundary@.len() <= max_boundary_len()
                &&& !occurs(metadata_json@, delimiter(m.boundary@))
                &&& !occurs(self.media@, delimiter(m.boundary@))
                &&& m.body@ == multipart_related(m.boundary@, metadata_json@, self.media@)
            },
    {
        let meta_chars = chars_of(metadata_json);
        let media_chars = chars_of(self.media.as_str());
        let l1 = longest_run(&meta_chars, '_');
        let l2 = longest_run(&media_chars, '_');
        let longest = if l1 >= l2 {
            l1
        } else {
            l2
        };
        if longest >= 63 {
            proof {
                if l1 >= 63 {
                    lemma_shorter_run(metadata_json@, '_', l1 as int, 63);
                } else {
                    lemma_shorter_run(self.media@, '_', l2 as int, 63);
                }
            }
            return None;
        }
        let k = longest + 1;
        proof {
            if has_run(metadata_json@, '_', 63) {
                lemma_shorter_run(metadata_json@, '_', 63, l1 + 1);
            }
            if has_run(self.media@, '_', 63) {
                lemma_shorter_run(self.media@, '_', 63, l2 + 1);
            }
            if has_run(metadata_json@, '_', k as int) {
                lemma_shorter_run(metadata_json@, '_', k as int, l1 + 1);
            }
            if has_run(self.media@, '_', k as int) {
                lemma_shorter_run(self.media@, '_', k as int, l2 + 1);
            }
            lemma_delimiter_needs_run(metadata_json@, k as nat);
            lemma_delimiter_needs_run(self.media@, k as nat);
            reveal_strlit("tubesub");
            reveal_strlit("_");
        }
        let mut boundary = String::from_str("tubesub");
        assert(boundary@ =~= caption_boundary(0));
        let mut j: usize = 0;
        while j < k
            invariant
                j <= k,
                boundary@ == caption_boundary(j as nat),
                "_"@ == seq!['_'],
            decreases k - j,
        {
            boundary.append("_");
            assert(boundary@ =~= caption_boundary((j + 1) as nat));
            j = j + 1;
        }
        let mut body = String::from_str("--");
        body.append(boundary.as_str());
        body.append("\r\nContent-Type: application/json; charset=UTF-8\r\n\r\n");
        body.append(metadata_json);
        body.append("\r\n--");
        body.append(boundary.as_str());
        body.append("\r\nContent-Type: application/octet-stream\r\n\r\n");
        body.append(self.media.as_str());
        body.append("\r\n--");
        body.append(boundary.as_str());
        body.append("--\r\n");
        Some(MultipartBody { boundary, body })
    }
}

/// The outcome of a caption upload from the status of its reply; `body` is
/// the reply's body, which is only read, and only reported, on failure.
pub fn caption_upload_result(status: u16, body: String) -> (r: Result<(), ApiError>)
    ensures
        is_success_status(status) ==> r is Ok,
        !is_success_status(status) ==> r == Err::<(), ApiError>(
            ApiError::Status { endpoint: Endpoint::Captions, status, body },
        ),
{
    if is_success(status) {
        Ok(())
    } else {
        Err(ApiError::Status { endpoint: Endpoint::Captions, status, body })
    }
}

/// A reply that delivers a page of the playlist.
pub open spec fn is_good_page(reply: Reply) -> bool {
    reply matches Reply::PlaylistItems { status, parsed: Ok(_), .. } && is_success_status(status)
}

/// The page that a reply delivers.
pub open spec fn page_of(reply: Reply) -> PlaylistItemsResponse {
    match reply {
        Reply::PlaylistItems { parsed: Ok(page), .. } => page,
        _ => arbitrary(),
    }
}

/// Replies that deliver a whole playlist: every reply delivers a page, each
/// page but the last names a next page, and the last names none.
pub open spec fn is_page_chain(pages: Seq<Reply>) -> bool {
    &&& pages.len() > 0
    &&& forall|i: int| 0 <= i < pages.len() ==> is_good_page(#[trigger] pages[i])
    &&& forall|i: int| 0 <= i < pages.len() - 1 ==> (#[trigger] page_of(pages[i])).next_page_token is Some
    &&& page_of(pages.last()).next_page_token is None
}

/// The videos of the pages that `pages` deliver, in order.
pub open spec fn pages_videos(pages: Seq<Reply>) -> Seq<Video>
    decreases pages.len(),
{
    if pages.len() == 0 {
        Seq::empty()
    } else {
        videos_of(page_of(pages[0]).items@) + pages_videos(pages.drop_first())
    }
}

/// The cache, state and action after the replies `replies` arrive one after
/// the other, starting in `state`.
pub open spec fn run_fetch(
    cache: Seq<Video>,
    token: Seq<char>,
    state: StateView,
    replies: Seq<Reply>,
) -> (Seq<Video>, StateView, ActionView)
    decreases replies.len(),
{
    let (next_cache, next_state, action) = fetch_step(cache, token, state, replies[0]);
    if replies.len() <= 1 {
        (next_cache, next_state, action)
    } else {
        run_fetch(next_cache, token, next_state, replies.drop_first())
    }
}

/// A fetch that ends with the videos `videos` leaves them in the cache, so
/// that the next fetch, when there is at least one video, is answered from
/// the cache at once with the same videos and sends no request.
pub proof fn law_completed_fetch_is_cached(
    cache: Seq<Video>,
    token: Seq<char>,
    state: StateView,
    reply: Reply,
    videos: Seq<Video>,
)
    requires
        reply_fits(state, reply),
        fetch_step(cache, token, state, reply).2 == ActionView::Finish(Ok(videos)),
    ensures
        fetch_step(cache, token, state, reply).0 == videos,
        videos.len() > 0 ==> fetch_start(videos, token) == (
            StateView::Finished,
            ActionView::Finish(Ok(videos)),
        ),
{
}

/// The cache changes only when a fetch ends with videos, and then holds
/// them; in particular a failed fetch leaves it as it was.
pub proof fn law_cache_changes_only_on_success(
    cache: Seq<Video>,
    token: Seq<char>,
    state: StateView,
    reply: Reply,
)
    requires
        reply_fits(state, reply),
    ensures
        ({
            let (next_cache, _, action) = fetch_step(cache, token, state, reply);
            next_cache == cache || action == ActionView::Finish(Ok(next_cache))
        }),
        fetch_step(cache, token, state, reply).2 matches ActionView::Finish(Err(_)) ==> fetch_step(
            cache,
            token,
            state,
            reply,
        ).0 == cache,
{
}

/// Every request of a fetch is authorized with the client's access token,
/// and every request for a page names the same playlist as the one before.
pub proof fn law_requests_carry_the_token(
    cache: Seq<Video>,
    token: Seq<char>,
    state: StateView,
    reply: Reply,
)
    requires
        reply_fits(state, reply),
    ensures
        fetch_start(cache, token).1 matches ActionView::Send(r) ==> r.bearer_token == token,
        fetch_step(cache, token, state, reply).2 matches ActionView::Send(r) ==> r.bearer_token
            == token,
        state matches StateView::AwaitingPage { playlist_id, .. } ==> (fetch_step(
            cache,
            token,
            state,
            reply,
        ).2 matches ActionView::Send(r) ==> r.endpoint == Endpoint::PlaylistItems && r.query[1] == (
            "playlistId"@,
            playlist_id,
        )),
{
}

/// With nothing cached (a new client, or after `clear_cache`), a fetch
/// starts by asking for the channel's uploads playlist.
pub proof fn law_empty_cache_asks_the_api(token: Seq<char>)
    ensures
        fetch_start(Seq::empty(), token) == (
            StateView::AwaitingChannel,
            ActionView::Send(channel_request(token)),
        ),
{
}

/// Reading a playlist page by page gathers the videos of all pages in
/// order after those already gathered; the fetch then ends with them and
/// caches them.
pub proof fn law_pages_concatenate(
    cache: Seq<Video>,
    token: Seq<char>,
    playlist_id: Seq<char>,
    before: Seq<Video>,
    page_token: Option<Seq<char>>,
    pages: Seq<Reply>,
)
    requires
        is_page_chain(pages),
    ensures
        run_fetch(
            cache,
            token,
            StateView::AwaitingPage { playlist_id, videos: before, page_token },
            pages,
        ) == (
            before + pages_videos(pages),
            StateView::Finished,
            ActionView::Finish(Ok(before + pages_videos(pages))),
        ),
    decreases pages.len(),
{
    let state = StateView::AwaitingPage { playlist_id, videos: before, page_token };
    let first = pages[0];
    assert(is_good_page(first));
    let page = page_of(first);
    let gathered = before + videos_of(page.items@);
    let rest = pages.drop_first();
    if pages.len() == 1 {
        assert(pages_videos(rest) =~= Seq::<Video>::empty());
        assert(pages_videos(pages) =~= videos_of(page.items@));
    } else {
        assert(page_of(pages[0]).next_page_token is Some);
        let t = page.next_page_token.unwrap();
        assert(fetch_step(cache, token, state, first).1 == StateView::AwaitingPage {
            playlist_id,
            videos: gathered,
            page_token: Some(t@),
        });
        assert forall|i: int| 0 <= i < rest.len() implies is_good_page(#[trigger] rest[i]) by {
            assert(rest[i] == pages[i + 1]);
        }
        assert forall|i: int| 0 <= i < rest.len() - 1 implies (#[trigger] page_of(
            rest[i],
        )).next_page_token is Some by {
            assert(rest[i] == pages[i + 1]);
        }
        assert(rest.last() == pages.last());
        law_pages_concatenate(cache, token, playlist_id, gathered, Some(t@), rest);
        assert(gathered + pages_videos(rest) =~= before + pages_videos(pages));
    }
}

/// A fetch that finds the channel and then reads its uploads playlist to
/// the last page ends with the videos of all pages, in order, and caches them.
pub proof fn law_fetch_reads_every_page(
    cache: Seq<Video>,
    token: Seq<char>,
    channel: Reply,
    pages: Seq<Reply>,
)
    requires
        channel matches Reply::Channels { status, parsed: Ok(resp), .. } && is_success_status(
            status,
        ) && resp.items@.len() > 0,
        is_page_chain(pages),
    ensures
        run_fetch(cache, token, StateView::AwaitingChannel, seq![channel] + pages) == (
            pages_videos(pages),
            StateView::Finished,
            ActionView::Finish(Ok(pages_videos(pages))),
        ),
{
    let replies = seq![channel] + pages;
    assert(replies[0] == channel);
    assert(replies.drop_first() =~= pages);
    if let Reply::Channels { parsed: Ok(resp), .. } = channel {
        let playlist_id = resp.items@[0].uploads_playlist_id@;
        law_pages_concatenate(cache, token, playlist_id, Seq::empty(), None, pages);
        assert(Seq::<Video>::empty() + pages_videos(pages) =~= pages_videos(pages));
    }
}

/// The actions of a fetch, one per reply, as the replies `replies` arrive
/// one after the other, starting in `state`.
pub open spec fn fetch_actions(
    cache: Seq<Video>,
    token: Seq<char>,
    state: StateView,
    replies: Seq<Reply>,
) -> Seq<ActionView>
    decreases replies.len(),
{
    let (next_cache, next_state, action) = fetch_step(cache, token, state, replies[0]);
    if replies.len() <= 1 {
        seq![action]
    } else {
        seq![action] + fetch_actions(next_cache, token, next_state, replies.drop_first())
    }
}

/// Walking a playlist asks for one page per reply: after each page but the
/// last, the request for the next page of the same playlist, carrying the
/// token that the page named; after the last, the fetch ends with the
/// videos of all pages.
pub proof fn law_page_requests_follow_tokens(
    cache: Seq<Video>,
    token: Seq<char>,
    playlist_id: Seq<char>,
    before: Seq<Video>,
    page_token: Option<Seq<char>>,
    pages: Seq<Reply>,
)
    requires
        is_page_chain(pages),
    ensures
        ({
            let actions = fetch_actions(
                cache,
                token,
                StateView::AwaitingPage { playlist_id, videos: before, page_token },
                pages,
            );
            &&& actions.len() == pages.len()
            &&& forall|i: int|
                0 <= i < pages.len() - 1 ==> #[trigger] actions[i] == ActionView::Send(
                    page_request(token, playlist_id, opt_view(page_of(pages[i]).next_page_token)),
                )
            &&& actions[pages.len() - 1] == ActionView::Finish(Ok(before + pages_videos(pages)))
        }),
    decreases pages.len(),
{
    let state = StateView::AwaitingPage { playlist_id, videos: before, page_token };
    let actions = fetch_actions(cache, token, state, pages);
    let first = pages[0];
    assert(is_good_page(first));
    let page = page_of(first);
    let gathered = before + videos_of(page.items@);
    let rest = pages.drop_first();
    if pages.len() == 1 {
        assert(pages_videos(rest) =~= Seq::<Video>::empty());
        assert(pages_videos(pages) =~= videos_of(page.items@));
    } else {
        assert(page_of(pages[0]).next_page_token is Some);
        let t = page.next_page_token.unwrap();
        let next = StateView::AwaitingPage { playlist_id, videos: gathered, page_token: Some(t@) };
        assert(fetch_step(cache, token, state, first).1 == next);
        assert forall|i: int| 0 <= i < rest.len() implies is_good_page(#[trigger] rest[i]) by {
            assert(rest[i] == pages[i + 1]);
        }
        assert forall|i: int| 0 <= i < rest.len() - 1 implies (#[trigger] page_of(
            rest[i],
        )).next_page_token is Some by {
            assert(rest[i] == pages[i + 1]);
        }
        assert(rest.last() == pages.last());
        law_page_requests_follow_tokens(cache, token, playlist_id, gathered, Some(t@), rest);
        let tail = fetch_actions(cache, token, next, rest);
        assert(actions == seq![actions[0]] + tail);
        assert forall|i: int| 0 <= i < pages.len() - 1 implies #[trigger] actions[i]
            == ActionView::Send(
            page_request(token, playlist_id, opt_view(page_of(pages[i]).next_page_token)),
        ) by {
            if i > 0 {
                assert(actions[i] == tail[i - 1]);
                assert(rest[i - 1] == pages[i]);
            }
        }
        assert(actions[pages.len() - 1] == tail[rest.len() - 1]);
        assert(gathered + pages_videos(rest) =~= before + pages_videos(pages));
    }
}

/// A whole fetch after the channel is found sends exactly one request per
/// page: the first page's request carries no page token, each later one the
/// token that the page before named, all for the first channel's uploads
/// playlist; after the last page the fetch ends with all pages' videos.
pub proof fn law_fetch_requests_every_page_once(
    cache: Seq<Video>,
    token: Seq<char>,
    channel: Reply,
    pages: Seq<Reply>,
)
    requires
        channel matches Reply::Channels { status, parsed: Ok(resp), .. } && is_success_status(
            status,
        ) && resp.items@.len() > 0,
        is_page_chain(pages),
    ensures
        ({
            let playlist_id = match channel {
                Reply::Channels { parsed: Ok(resp), .. } => resp.items@[0].uploads_playlist_id@,
                _ => Seq::empty(),
            };
            let actions = fetch_actions(
                cache,
                token,
                StateView::AwaitingChannel,
                seq![channel] + pages,
            );
            &&& actions.len() == pages.len() + 1
            &&& actions[0] == ActionView::Send(page_request(token, playlist_id, None))
            &&& forall|i: int|
                0 <= i < pages.len() - 1 ==> #[trigger] actions[i + 1] == ActionView::Send(
                    page_request(token, playlist_id, opt_view(page_of(pages[i]).next_page_token)),
                )
            &&& actions[pages.len() as int] == ActionView::Finish(Ok(pages_videos(pages)))
        }),
{
    let replies = seq![channel] + pages;
    assert(replies[0] == channel);
    assert(replies.drop_first() =~= pages);
    if let Reply::Channels { parsed: Ok(resp), .. } = channel {
        let playlist_id = resp.items@[0].uploads_playlist_id@;
        let next = StateView::AwaitingPage { playlist_id, videos: Seq::empty(), page_token: None };
        law_page_requests_follow_tokens(cache, token, playlist_id, Seq::empty(), None, pages);
        let actions = fetch_actions(cache, token, StateView::AwaitingChannel, replies);
        let tail = fetch_actions(cache, token, next, pages);
        assert(actions == seq![actions[0]] + tail);
        assert forall|i: int| 0 <= i < pages.len() - 1 implies #[trigger] actions[i + 1]
            == ActionView::Send(
            page_request(token, playlist_id, opt_view(page_of(pages[i]).next_page_token)),
        ) by {
            assert(actions[i + 1] == tail[i]);
        }
        assert(actions[pages.len() as int] == tail[pages.len() - 1]);
        assert(Seq::<Video>::empty() + pages_videos(pages) =~= pages_videos(pages));
    }
}

/// A fetch with nothing cached asks for the channel first, then reads the
/// uploads playlist of the channel found to its last page, ends with the
/// videos of all pages in order, and caches them.
pub proof fn law_fetch_from_empty_cache(token: Seq<char>, channel: Reply, pages: Seq<Reply>)
    requires
        channel matches Reply::Channels { status, parsed: Ok(resp), .. } && is_success_status(
            status,
        ) && resp.items@.len() > 0,
        is_page_chain(pages),
    ensures
        fetch_start(Seq::empty(), token) == (
            StateView::AwaitingChannel,
            ActionView::Send(channel_request(token)),
        ),
        run_fetch(Seq::empty(), token, StateView::AwaitingChannel, seq![channel] + pages) == (
            pages_videos(pages),
            StateView::Finished,
            ActionView::Finish(Ok(pages_videos(pages))),
        ),
{
    law_fetch_reads_every_page(Seq::empty(), token, channel, pages);
}

/// A reply that failed in transport, or whose status is not a success, ends
/// the fetch at once with that error and leaves the cache as it was.
pub proof fn law_failed_reply_ends_fetch(
    cache: Seq<Video>,
    token: Seq<char>,
    state: StateView,
    reply: Reply,
)
    requires
        reply_fits(state, reply),
        reply is Failed || (reply matches Reply::Channels { status, .. } && !is_success_status(status))
            || (reply matches Reply::PlaylistItems { status, .. } && !is_success_status(status)),
    ensures
        fetch_step(cache, token, state, reply) == match reply {
            Reply::Failed(m) => failed(cache, ApiError::Transport(m)),
            Reply::Channels { status, body, .. } => failed(
                cache,
                ApiError::Status { endpoint: Endpoint::Channels, status, body },
            ),
            Reply::PlaylistItems { status, body, .. } => failed(
                cache,
                ApiError::Status { endpoint: Endpoint::PlaylistItems, status, body },
            ),
        },
{
}

/// A page whose body does not parse ends the fetch with a parse error,
/// whatever pages came before it, and leaves the cache as it was: a partial
/// list is never reported, nor cached.
pub proof fn law_unparsed_page_fails_the_fetch(
    cache: Seq<Video>,
    token: Seq<char>,
    state: StateView,
    status: u16,
    body: String,
    detail: String,
)
    requires
        state is AwaitingPage,
        is_success_status(status),
    ensures
        fetch_step(
            cache,
            token,
            state,
            Reply::PlaylistItems { status, body, parsed: Err(detail) },
        ) == (
            cache,
            StateView::Finished,
            ActionView::Finish(
                Err(ApiError::Malformed { endpoint: Endpoint::PlaylistItems, detail, body }),
            ),
        ),
{
}

/// A fetch ends with videos only on a page that parsed and names no next
/// page; the videos are then those gathered before that page followed by
/// that page's own, one for each of its entries, and they become the cache.
pub proof fn law_videos_only_after_the_last_page(
    cache: Seq<Video>,
    token: Seq<char>,
    state: StateView,
    reply: Reply,
    videos: Seq<Video>,
)
    requires
        reply_fits(state, reply),
        fetch_step(cache, token, state, reply).2 == ActionView::Finish(Ok(videos)),
    ensures
        reply matches Reply::PlaylistItems { status, parsed: Ok(page), .. } && {
            &&& is_success_status(status)
            &&& page.next_page_token is None
            &&& state matches StateView::AwaitingPage { videos: before, .. } && {
                &&& videos.len() == before.len() + page.items@.len()
                &&& videos.take(before.len() as int) == before
                &&& forall|i: int|
                    0 <= i < page.items@.len() ==> {
                        &&& (#[trigger] videos[before.len() + i]).id == page.items@[i].video_id
                        &&& videos[before.len() + i].title == page.items@[i].title
                    }
            }
        },
        fetch_step(cache, token, state, reply).0 == videos,
{
    if let Reply::PlaylistItems { parsed: Ok(page), .. } = reply {
        if let StateView::AwaitingPage { videos: before, .. } = state {
            let added = videos_of(page.items@);
            assert(videos == before + added);
            assert(videos.take(before.len() as int) =~= before);
            assert forall|i: int| 0 <= i < page.items@.len() implies {
                &&& (#[trigger] videos[before.len() + i]).id == page.items@[i].video_id
                &&& videos[before.len() + i].title == page.items@[i].title
            } by {
                assert(videos[before.len() + i] == added[i]);
            }
        }
    }
}

/// The caption track goes into the body whole: the body opens with the
/// delimiter of its boundary, and ends with the whole media, unchanged,
/// followed by the closing delimiter; and a track longer by some number of
/// characters makes a body longer by exactly that number.
pub proof fn law_body_carries_the_whole_track(
    boundary: Seq<char>,
    metadata: Seq<char>,
    media: Seq<char>,
    other_media: Seq<char>,
)
    ensures
        ({
            let body = multipart_related(boundary, metadata, media);
            &&& exists|head: Seq<char>|
                body == head + seq!['\r', '\n', 'C', 'o', 'n', 't', 'e', 'n', 't', '-', 'T', 'y', 'p', 'e', ':', ' ', 'a', 'p', 'p', 'l', 'i', 'c', 'a', 't', 'i', 'o', 'n', '/', 'o', 'c', 't', 'e', 't', '-', 's', 't', 'r', 'e', 'a', 'm', '\r', '\n', '\r', '\n'] + media + seq!['\r', '\n', '-', '-'] + boundary + seq!['-', '-', '\r', '\n']
            &&& body.take(2 + boundary.len() as int) == seq!['-', '-'] + boundary
            &&& body.len() == multipart_related(boundary, metadata, other_media).len()
                + media.len() - other_media.len()
        }),
{
    reveal_strlit("--");
    reveal_strlit("\r\nContent-Type: application/json; charset=UTF-8\r\n\r\n");
    reveal_strlit("\r\n--");
    reveal_strlit("\r\nContent-Type: application/octet-stream\r\n\r\n");
    reveal_strlit("--\r\n");
    let body = multipart_related(boundary, metadata, media);
    let octet = seq!['\r', '\n', 'C', 'o', 'n', 't', 'e', 'n', 't', '-', 'T', 'y', 'p', 'e', ':', ' ', 'a', 'p', 'p', 'l', 'i', 'c', 'a', 't', 'i', 'o', 'n', '/', 'o', 'c', 't', 'e', 't', '-', 's', 't', 'r', 'e', 'a', 'm', '\r', '\n', '\r', '\n'];
    assert("\r\nContent-Type: application/octet-stream\r\n\r\n"@ =~= octet);
    assert("\r\n--"@ =~= seq!['\r', '\n', '-', '-']);
    assert("--\r\n"@ =~= seq!['-', '-', '\r', '\n']);
    assert("--"@ =~= seq!['-', '-']);
    let head = "--"@ + boundary + "\r\nContent-Type: application/json; charset=UTF-8\r\n\r\n"@ + metadata
        + "\r\n--"@ + boundary;
    assert(body =~= head + octet + media + seq!['\r', '\n', '-', '-'] + boundary + seq!['-', '-', '\r', '\n']);
    assert(body.take(2 + boundary.len() as int) =~= seq!['-', '-'] + boundary);
    let other_head = head;
    assert(multipart_related(boundary, metadata, other_media) =~= other_head + octet + other_media
        + seq!['\r', '\n', '-', '-'] + boundary + seq!['-', '-', '\r', '\n']);
}

} // verus!
