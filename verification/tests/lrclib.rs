use lrc_sync::lrclib::{
    fetch_once, pause_secs, query_params, read_body, FetchEvent, FetchState, LrclibClient,
    LrclibResponse, LyricsResult, RateLimiter,
};
use lrc_sync::tags::TrackTags;

fn tags(album: &str, duration_secs: i64) -> TrackTags {
    TrackTags {
        title: "Ti tle".to_string(),
        artist: "Art".to_string(),
        album: album.to_string(),
        duration_secs,
    }
}

fn pairs(items: &[(&str, &str)]) -> Vec<(String, String)> {
    items.iter().map(|(a, b)| (a.to_string(), b.to_string())).collect()
}

fn body(synced: Option<&str>, plain: Option<&str>) -> LrclibResponse {
    LrclibResponse {
        synced_lyrics: synced.map(str::to_string),
        plain_lyrics: plain.map(str::to_string),
    }
}

fn status(code: u16, retry_after: Option<&str>) -> FetchEvent {
    FetchEvent::Status { code, retry_after: retry_after.map(str::to_string) }
}

#[test]
fn parameters_name_the_track() {
    assert_eq!(
        query_params(&tags("Alb", 201)),
        pairs(&[
            ("artist_name", "Art"),
            ("track_name", "Ti tle"),
            ("album_name", "Alb"),
            ("duration", "201"),
        ])
    );
    assert_eq!(
        query_params(&tags("", 0)),
        pairs(&[("artist_name", "Art"), ("track_name", "Ti tle")])
    );
    assert_eq!(query_params(&tags("", -4)).len(), 2);
    assert_eq!(query_params(&tags("", i64::MAX))[2].1, "9223372036854775807");
}

#[test]
fn synced_lyrics_come_first() {
    assert!(matches!(read_body(body(Some("s"), Some("p"))), LyricsResult::Found(l) if l == "s"));
    assert!(matches!(read_body(body(None, Some("p\n"))), LyricsResult::Found(l) if l == "p\n"));
}

#[test]
fn blank_lyrics_are_none() {
    assert!(matches!(read_body(body(None, None)), LyricsResult::NotFound));
    assert!(matches!(read_body(body(None, Some(" \n"))), LyricsResult::NotFound));
    assert!(matches!(read_body(body(Some(""), Some("p"))), LyricsResult::NotFound));
}

#[test]
fn pauses_follow_the_header_up_to_two_minutes() {
    assert_eq!(pause_secs(None), 30);
    assert_eq!(pause_secs(Some("soon")), 30);
    assert_eq!(pause_secs(Some(" 5")), 30);
    assert_eq!(pause_secs(Some("18446744073709551616")), 30);
    assert_eq!(pause_secs(Some("5")), 5);
    assert_eq!(pause_secs(Some("0")), 0);
    assert_eq!(pause_secs(Some("120")), 120);
    assert_eq!(pause_secs(Some("121")), 120);
}

#[test]
fn a_lookup_begins_with_a_request() {
    let fetch = LrclibClient::fetch(&tags("Alb", 3));
    assert_eq!(fetch.params, query_params(&tags("Alb", 3)));
    assert!(matches!(fetch.state, FetchState::Sending { retry_allowed: true }));
}

#[test]
fn found_lyrics_are_handed_back() {
    let state = fetch_once(FetchState::Sending { retry_allowed: true }, status(200, None));
    assert!(matches!(state, FetchState::ReadingBody));
    let state = fetch_once(state, FetchEvent::Body { body: Some(body(Some("la"), None)) });
    assert!(
        matches!(&state, FetchState::Done { result: LyricsResult::Found(lyrics) } if lyrics == "la")
    );
    let state = fetch_once(state, FetchEvent::SendFailed);
    assert!(matches!(state, FetchState::Done { result: LyricsResult::Found(_) }));
}

#[test]
fn failures_are_temporary() {
    let start = FetchState::Sending { retry_allowed: true };
    let state = fetch_once(start, FetchEvent::SendFailed);
    assert!(matches!(state, FetchState::Done { result: LyricsResult::TemporaryFailure }));
    for code in [201, 301, 400, 500, 503] {
        let state = fetch_once(FetchState::Sending { retry_allowed: true }, status(code, None));
        assert!(matches!(state, FetchState::Done { result: LyricsResult::TemporaryFailure }));
    }
    let state = fetch_once(FetchState::ReadingBody, FetchEvent::Body { body: None });
    assert!(matches!(state, FetchState::Done { result: LyricsResult::TemporaryFailure }));
}

#[test]
fn a_missing_track_is_not_found() {
    let state = fetch_once(FetchState::Sending { retry_allowed: false }, status(404, None));
    assert!(matches!(state, FetchState::Done { result: LyricsResult::NotFound }));
}

#[test]
fn a_lookup_sends_at_most_two_requests() {
    let start = FetchState::Sending { retry_allowed: true };
    let state = fetch_once(start, status(429, Some("7")));
    assert!(matches!(state, FetchState::Pausing { secs: 7 }));
    let state = fetch_once(state, FetchEvent::Rested);
    assert!(matches!(state, FetchState::Sending { retry_allowed: false }));
    let state = fetch_once(state, status(429, Some("7")));
    assert!(matches!(state, FetchState::Done { result: LyricsResult::TemporaryFailure }));
}

#[test]
fn requests_keep_their_distance() {
    let mut limiter = RateLimiter::new(750, 1_000);
    assert_eq!(limiter.wait(1_000), 0);
    limiter.note_sent(1_000);
    assert_eq!(limiter.wait(1_000), 750);
    assert_eq!(limiter.wait(1_700), 50);
    assert_eq!(limiter.wait(1_750), 0);
    assert_eq!(limiter.wait(9_000), 0);
    limiter.note_sent(1_751);
    assert_eq!(limiter.wait(1_800), 701);
}

#[test]
fn no_interval_means_no_wait() {
    let mut limiter = RateLimiter::new(0, 1_000);
    limiter.note_sent(5_000);
    assert_eq!(limiter.wait(0), 0);
}

#[test]
fn the_client_keeps_its_settings() {
    let mut client = LrclibClient::new(750, 30, 4);
    assert_eq!(client.request_timeout_secs, 30);
    client.limiter.note_sent(10);
    assert_eq!(client.limiter.wait(10), 750_000_000);
}
