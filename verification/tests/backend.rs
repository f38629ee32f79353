use waveshare_epaper::backend::{
    first_entry, first_playing, join_artists, navidrome_now_playing, spotify_cover_url, spotify_now_playing,
    spotify_reply, NavidromeConfig, NowPlaying, SpotifyAlbum, SpotifyArtist, SpotifyConfig,
    SpotifyCurrentlyPlaying, SpotifyImage, SpotifyReply, SpotifyTrack, SubsonicEntry,
};

fn pairs(v: &[(&str, &str)]) -> Vec<(String, String)> {
    v.iter().map(|(a, b)| (a.to_string(), b.to_string())).collect()
}

#[test]
fn navidrome_params_and_urls() {
    let cfg = NavidromeConfig::new("http://nd:4533".to_string(), "me".to_string(), "secret".to_string());
    assert_eq!(
        cfg.subsonic_params(),
        pairs(&[("u", "me"), ("p", "secret"), ("v", "1.16.1"), ("c", "waveshare-epaper"), ("f", "json")])
    );
    assert_eq!(cfg.now_playing_url(), "http://nd:4533/rest/getNowPlaying");
    assert_eq!(cfg.cover_art_url(), "http://nd:4533/rest/getCoverArt");
    let p = cfg.cover_art_params("al-42");
    assert_eq!(&p[5..], &pairs(&[("id", "al-42"), ("size", "300")])[..]);
    assert_eq!(p.len(), 7);
}

fn entry(title: &str) -> SubsonicEntry {
    SubsonicEntry {
        title: title.to_string(),
        artist: None,
        album: Some("LP".to_string()),
        cover_art: None,
        duration: Some(240),
    }
}

#[test]
fn navidrome_first_entry() {
    assert!(first_entry(None).is_none());
    assert!(first_entry(Some(vec![])).is_none());
    let e = first_entry(Some(vec![entry("one"), entry("two"), entry("three")])).unwrap();
    assert_eq!(e.title, "one");
}

#[test]
fn navidrome_now_playing_defaults() {
    let np = navidrome_now_playing(entry("song"), Some(vec![1, 2]));
    assert_eq!(np.track, "song");
    assert_eq!(np.artist, "");
    assert_eq!(np.album, "LP");
    assert_eq!(np.cover_art, Some(vec![1, 2]));
    assert_eq!(np.progress_secs, None);
    assert_eq!(np.duration_secs, Some(240));
}

#[test]
fn spotify_token_form() {
    let cfg = SpotifyConfig::new("id".to_string(), "sec".to_string(), "rt".to_string());
    assert_eq!(cfg.token_form(), pairs(&[("grant_type", "refresh_token"), ("refresh_token", "rt")]));
    assert_eq!(cfg.client_id(), "id");
    assert_eq!(cfg.client_secret(), "sec");
}

#[test]
fn spotify_reply_by_status() {
    assert_eq!(spotify_reply(401, false), SpotifyReply::RefreshToken);
    assert_eq!(spotify_reply(401, true), SpotifyReply::ReadBody);
    assert_eq!(spotify_reply(204, false), SpotifyReply::NothingPlaying);
    assert_eq!(spotify_reply(204, true), SpotifyReply::NothingPlaying);
    assert_eq!(spotify_reply(200, false), SpotifyReply::ReadBody);
}

fn track(artists: &[&str], images: &[&str]) -> SpotifyTrack {
    SpotifyTrack {
        name: "Song".to_string(),
        duration_ms: 185_999,
        artists: artists.iter().map(|a| SpotifyArtist { name: a.to_string() }).collect(),
        album: SpotifyAlbum {
            name: "Record".to_string(),
            images: images.iter().map(|u| SpotifyImage { url: u.to_string() }).collect(),
        },
    }
}

#[test]
fn spotify_join_artists() {
    assert_eq!(join_artists(&vec![]), "");
    assert_eq!(join_artists(&track(&["A"], &[]).artists), "A");
    assert_eq!(join_artists(&track(&["A", "B", "C"], &[]).artists), "A, B, C");
}

#[test]
fn spotify_playing_track() {
    let body = SpotifyCurrentlyPlaying {
        is_playing: true,
        progress_ms: Some(61_500),
        item: Some(track(&["X", "Y"], &["http://img/1", "http://img/2"])),
    };
    assert_eq!(spotify_cover_url(&body), Some("http://img/1".to_string()));
    let np = spotify_now_playing(body, None).unwrap();
    assert_eq!(np.track, "Song");
    assert_eq!(np.artist, "X, Y");
    assert_eq!(np.album, "Record");
    assert_eq!(np.progress_secs, Some(61));
    assert_eq!(np.duration_secs, Some(185));
}

#[test]
fn spotify_nothing_playing() {
    let paused = SpotifyCurrentlyPlaying { is_playing: false, progress_ms: None, item: Some(track(&["X"], &["u"])) };
    assert_eq!(spotify_cover_url(&paused), None);
    assert!(spotify_now_playing(paused, None).is_none());
    let empty = SpotifyCurrentlyPlaying { is_playing: true, progress_ms: Some(1), item: None };
    assert_eq!(spotify_cover_url(&empty), None);
    assert!(spotify_now_playing(empty, None).is_none());
    let no_images = SpotifyCurrentlyPlaying { is_playing: true, progress_ms: None, item: Some(track(&[], &[])) };
    assert_eq!(spotify_cover_url(&no_images), None);
    let np = spotify_now_playing(no_images, None).unwrap();
    assert_eq!(np.progress_secs, None);
    assert_eq!(np.artist, "");
}

fn playing(track: &str) -> NowPlaying {
    NowPlaying {
        track: track.to_string(),
        artist: String::new(),
        album: String::new(),
        cover_art: None,
        progress_secs: None,
        duration_secs: None,
    }
}

#[test]
fn first_playing_picks_first() {
    assert!(first_playing(vec![]).is_none());
    assert!(first_playing(vec![None, None]).is_none());
    let np = first_playing(vec![None, Some(playing("b")), Some(playing("c"))]).unwrap();
    assert_eq!(np.track, "b");
}
