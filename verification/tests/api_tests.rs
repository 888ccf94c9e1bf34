use tubesub::api::{
    caption_upload_result, is_success, ApiError, ChannelItem, ChannelResponse, Endpoint,
    FetchAction, FetchState, PlaylistItem, PlaylistItemsResponse, Reply, Thumbnails, Video,
    YouTubeClient,
};

fn pairs(v: &[(&str, &str)]) -> Vec<(String, String)> {
    v.iter().map(|(k, x)| (k.to_string(), x.to_string())).collect()
}

fn item(id: &str, title: &str, thumb: Option<&str>) -> PlaylistItem {
    PlaylistItem {
        video_id: id.to_string(),
        title: title.to_string(),
        thumbnails: Some(Thumbnails { default_url: thumb.map(|t| t.to_string()) }),
    }
}

fn channel_reply(uploads: &[&str]) -> Reply {
    Reply::Channels {
        status: 200,
        body: "{}".to_string(),
        parsed: Ok(ChannelResponse {
            items: uploads.iter().map(|u| ChannelItem { uploads_playlist_id: u.to_string() }).collect(),
        }),
    }
}

fn page_reply(items: Vec<PlaylistItem>, next: Option<&str>) -> Reply {
    Reply::PlaylistItems {
        status: 200,
        body: "{}".to_string(),
        parsed: Ok(PlaylistItemsResponse { items, next_page_token: next.map(|t| t.to_string()) }),
    }
}

fn expect_send(action: FetchAction) -> tubesub::api::ApiRequest {
    match action {
        FetchAction::Send(r) => r,
        FetchAction::Finish(_) => panic!("expected a request"),
    }
}

fn expect_videos(action: FetchAction) -> Vec<Video> {
    match action {
        FetchAction::Finish(Ok(v)) => v,
        other => panic!("expected videos, got {:?}", other),
    }
}

fn expect_error(action: FetchAction) -> ApiError {
    match action {
        FetchAction::Finish(Err(e)) => e,
        other => panic!("expected an error, got {:?}", other),
    }
}

#[test]
fn fetch_starts_with_the_channel() {
    let client = YouTubeClient::new("tok".to_string());
    let (state, action) = client.begin_fetch();
    assert!(matches!(state, FetchState::AwaitingChannel));
    let req = expect_send(action);
    assert_eq!(req.endpoint, Endpoint::Channels);
    assert_eq!(req.bearer_token, "tok");
    assert_eq!(req.query, pairs(&[("part", "contentDetails"), ("mine", "true")]));
}

#[test]
fn fetch_walks_every_page_and_caches_the_videos() {
    let mut client = YouTubeClient::new("tok".to_string());
    let (state, _) = client.begin_fetch();
    let (state, action) = client.advance_fetch(state, channel_reply(&["UUabc", "UUother"]));
    let req = expect_send(action);
    assert_eq!(req.endpoint, Endpoint::PlaylistItems);
    assert_eq!(req.query, pairs(&[("part", "snippet"), ("playlistId", "UUabc"), ("maxResults", "50")]));

    let page1 = vec![item("v1", "First", Some("https://i.ytimg.com/vi/v1/default.jpg")), item("v2", "Second", None)];
    let (state, action) = client.advance_fetch(state, page_reply(page1, Some("PAGE2")));
    let req = expect_send(action);
    assert_eq!(req.bearer_token, "tok");
    assert_eq!(
        req.query,
        pairs(&[("part", "snippet"), ("playlistId", "UUabc"), ("maxResults", "50"), ("pageToken", "PAGE2")])
    );

    let last = PlaylistItem { video_id: "v3".to_string(), title: "Third".to_string(), thumbnails: None };
    let (state, action) = client.advance_fetch(state, page_reply(vec![last], None));
    assert!(matches!(state, FetchState::Finished));
    let videos = expect_videos(action);
    assert_eq!(videos.len(), 3);
    assert_eq!(videos[0], Video { id: "v1".to_string(), title: "First".to_string(), thumbnail_url: Some("https://i.ytimg.com/vi/v1/default.jpg".to_string()) });
    assert_eq!(videos[1], Video { id: "v2".to_string(), title: "Second".to_string(), thumbnail_url: None });
    assert_eq!(videos[2], Video { id: "v3".to_string(), title: "Third".to_string(), thumbnail_url: None });

    // The next fetch is answered from the cache.
    let (state, action) = client.begin_fetch();
    assert!(matches!(state, FetchState::Finished));
    assert_eq!(expect_videos(action), videos);

    // Until the cache is cleared.
    client.clear_cache();
    let (_, action) = client.begin_fetch();
    assert_eq!(expect_send(action).endpoint, Endpoint::Channels);
}

#[test]
fn an_empty_playlist_is_not_cached() {
    let mut client = YouTubeClient::new("tok".to_string());
    let (state, _) = client.begin_fetch();
    let (state, _) = client.advance_fetch(state, channel_reply(&["UU"]));
    let (_, action) = client.advance_fetch(state, page_reply(vec![], None));
    assert!(expect_videos(action).is_empty());
    let (_, action) = client.begin_fetch();
    assert_eq!(expect_send(action).endpoint, Endpoint::Channels);
}

#[test]
fn an_error_status_ends_the_fetch() {
    let mut client = YouTubeClient::new("tok".to_string());
    let (state, _) = client.begin_fetch();
    let reply = Reply::Channels { status: 401, body: "unauthorized".to_string(), parsed: Err("x".to_string()) };
    let (state, action) = client.advance_fetch(state, reply);
    assert!(matches!(state, FetchState::Finished));
    match expect_error(action) {
        ApiError::Status { endpoint, status, body } => {
            assert_eq!(endpoint, Endpoint::Channels);
            assert_eq!(status, 401);
            assert_eq!(body, "unauthorized");
        }
        other => panic!("unexpected {:?}", other),
    }
}

#[test]
fn a_body_that_does_not_parse_ends_the_fetch() {
    let mut client = YouTubeClient::new("tok".to_string());
    let (state, _) = client.begin_fetch();
    let (state, _) = client.advance_fetch(state, channel_reply(&["UU"]));
    let reply = Reply::PlaylistItems { status: 200, body: "<html>".to_string(), parsed: Err("expected value".to_string()) };
    let (_, action) = client.advance_fetch(state, reply);
    match expect_error(action) {
        ApiError::Malformed { endpoint, detail, body } => {
            assert_eq!(endpoint, Endpoint::PlaylistItems);
            assert_eq!(detail, "expected value");
            assert_eq!(body, "<html>");
        }
        other => panic!("unexpected {:?}", other),
    }
    // Nothing was cached.
    let (_, action) = client.begin_fetch();
    assert_eq!(expect_send(action).endpoint, Endpoint::Channels);
}

#[test]
fn an_account_without_channel_fails() {
    let mut client = YouTubeClient::new("tok".to_string());
    let (state, _) = client.begin_fetch();
    let (_, action) = client.advance_fetch(state, channel_reply(&[]));
    assert!(matches!(expect_error(action), ApiError::NoChannel));
}

#[test]
fn a_transport_failure_ends_the_fetch() {
    let mut client = YouTubeClient::new("tok".to_string());
    let (state, _) = client.begin_fetch();
    let (_, action) = client.advance_fetch(state, Reply::Failed("connection refused".to_string()));
    assert!(matches!(expect_error(action), ApiError::Transport(m) if m == "connection refused"));
}

#[test]
fn caption_upload_names_the_track_and_carries_the_file() {
    let client = YouTubeClient::new("tok".to_string());
    let srt = "1\n00:00:01,000 --> 00:00:02,000\nHello\n";
    let upload = client.caption_upload("dQw4w9WgXcQ", srt, "en");
    assert_eq!(upload.endpoint, Endpoint::Captions);
    assert_eq!(upload.bearer_token, "tok");
    assert_eq!(upload.snippet.video_id, "dQw4w9WgXcQ");
    assert_eq!(upload.snippet.language, "en");
    assert_eq!(upload.snippet.name, "en - dQw4w9WgXcQ");
    assert!(!upload.snippet.is_draft);
    assert_eq!(upload.media, srt);
}

#[test]
fn caption_body_holds_metadata_then_the_track() {
    let client = YouTubeClient::new("tok".to_string());
    let upload = client.caption_upload("v", "1\nHi\n", "de");
    let body = upload.multipart_body("{\"snippet\":{}}").unwrap();
    assert_eq!(body.boundary, "tubesub_");
    assert_eq!(
        body.body,
        "--tubesub_\r\nContent-Type: application/json; charset=UTF-8\r\n\r\n{\"snippet\":{}}\r\n--tubesub_\r\nContent-Type: application/octet-stream\r\n\r\n1\nHi\n\r\n--tubesub_--\r\n"
    );
    assert_eq!(body.content_type(), "multipart/related; boundary=tubesub_");
}

#[test]
fn caption_boundary_outgrows_the_underscores_in_the_parts() {
    let client = YouTubeClient::new("tok".to_string());
    let upload = client.caption_upload("v", "a___b --tubesub__ c", "de");
    let body = upload.multipart_body("{\"x\":\"_\"}").unwrap();
    assert_eq!(body.boundary, "tubesub____");
    assert!(!upload.media.contains("--tubesub____"));
    let upload = client.caption_upload("v", "fine", "de");
    assert_eq!(upload.multipart_body("__").unwrap().boundary, "tubesub___");
}

#[test]
fn caption_body_refuses_a_boundary_over_seventy_characters() {
    let client = YouTubeClient::new("tok".to_string());
    let long_run = "_".repeat(63);
    let upload = client.caption_upload("v", &long_run, "de");
    assert!(upload.multipart_body("{}").is_none());
    let upload = client.caption_upload("v", &"_".repeat(62), "de");
    let body = upload.multipart_body("{}").unwrap();
    assert_eq!(body.boundary.len(), 70);
}

#[test]
fn caption_upload_result_follows_the_status() {
    assert!(caption_upload_result(200, String::new()).is_ok());
    match caption_upload_result(403, "forbidden".to_string()) {
        Err(ApiError::Status { endpoint, status, body }) => {
            assert_eq!(endpoint, Endpoint::Captions);
            assert_eq!(status, 403);
            assert_eq!(body, "forbidden");
        }
        other => panic!("unexpected {:?}", other),
    }
}

#[test]
fn success_is_the_two_hundreds() {
    assert!(!is_success(199));
    assert!(is_success(200));
    assert!(is_success(299));
    assert!(!is_success(300));
    assert!(!is_success(404));
}

#[test]
fn endpoint_urls() {
    assert_eq!(Endpoint::Channels.url(), "https://www.googleapis.com/youtube/v3/channels");
    assert_eq!(Endpoint::PlaylistItems.url(), "https://www.googleapis.com/youtube/v3/playlistItems");
    assert_eq!(Endpoint::Captions.url(), "https://www.googleapis.com/upload/youtube/v3/captions?uploadType=multipart&part=snippet");
}

#[test]
fn row_subtitle_shows_the_id() {
    let v = Video { id: "abc".to_string(), title: "T".to_string(), thumbnail_url: None };
    assert_eq!(v.row_subtitle(), "Video ID: abc");
    assert_eq!(v.copy(), v);
}
