//! What is playing, and the decisions of the Navidrome (Subsonic API) and Spotify
//! backends that find it out. The HTTP requests themselves are made by the server,
//! which hands the decoded replies to the functions here.
use vstd::prelude::*;

verus! {

/// The track currently playing on some backend.
pub struct NowPlaying {
    pub track: String,
    pub artist: String,
    pub album: String,
    /// Encoded cover image (any format the image decoder recognizes).
    pub cover_art: Option<Vec<u8>>,
    pub progress_secs: Option<u32>,
    pub duration_secs: Option<u32>,
}

/// The contents of a list of string pairs.
pub open spec fn pairs_view(v: Seq<(String, String)>) -> Seq<(Seq<char>, Seq<char>)> {
    Seq::new(v.len(), |i: int| (v[i].0@, v[i].1@))
}

/// The contents of an optional string, empty when absent.
pub open spec fn or_empty(s: Option<String>) -> Seq<char> {
    match s {
        Some(t) => t@,
        None => seq![],
    }
}

fn pair(a: &str, b: &str) -> (p: (String, String))
    ensures
        p.0@ == a@,
        p.1@ == b@,
{
    (String::from_str(a), String::from_str(b))
}

fn push_pair(v: &mut Vec<(String, String)>, a: &str, b: &str)
    ensures
        pairs_view(final(v)@) == pairs_view(old(v)@).push((a@, b@)),
{
    v.push(pair(a, b));
    assert(pairs_view(v@) =~= pairs_view(old(v)@).push((a@, b@)));
}

// ---- Navidrome (Subsonic API) ----

/// Where and as whom to reach a Navidrome server.
pub struct NavidromeConfig {
    url: String,
    user: String,
    pass: String,
}

/// One entry of a Subsonic "now playing" reply.
pub struct SubsonicEntry {
    pub title: String,
    pub artist: Option<String>,
    pub album: Option<String>,
    /// Cover art id.
    pub cover_art: Option<String>,
    pub duration: Option<u32>,
}

/// The Subsonic query parameters that authenticate as `user` and ask for JSON.
pub open spec fn subsonic_params_of(user: Seq<char>, pass: Seq<char>) -> Seq<(Seq<char>, Seq<char>)> {
    seq![
        ("u"@, user),
        ("p"@, pass),
        ("v"@, "1.16.1"@),
        ("c"@, "waveshare-epaper"@),
        ("f"@, "json"@),
    ]
}

impl NavidromeConfig {
    /// Base URL of the server.
    pub closed spec fn url_of(&self) -> Seq<char> {
        self.url@
    }

    /// User name.
    pub closed spec fn user_of(&self) -> Seq<char> {
        self.user@
    }

    /// Password.
    pub closed spec fn pass_of(&self) -> Seq<char> {
        self.pass@
    }

    /// A configuration for the server at `url`.
    pub fn new(url: String, user: String, pass: String) -> (c: Self)
        ensures
            c.url_of() == url@,
            c.user_of() == user@,
            c.pass_of() == pass@,
    {
        NavidromeConfig { url, user, pass }
    }

    /// The query parameters every Subsonic request carries.
    pub fn subsonic_params(&self) -> (params: Vec<(String, String)>)
        ensures
            pairs_view(params@) == subsonic_params_of(self.user_of(), self.pass_of()),
    {
        let mut params: Vec<(String, String)> = Vec::new();
        push_pair(&mut params, "u", self.user.as_str());
        push_pair(&mut params, "p", self.pass.as_str());
        push_pair(&mut params, "v", "1.16.1");
        push_pair(&mut params, "c", "waveshare-epaper");
        push_pair(&mut params, "f", "json");
        assert(pairs_view(params@) =~= subsonic_params_of(self.user@, self.pass@));
        params
    }

    /// The "now playing" endpoint.
    pub fn now_playing_url(&self) -> (u: String)
        ensures
            u@ == self.url_of() + "/rest/getNowPlaying"@,
    {
        self.url.clone().concat("/rest/getNowPlaying")
    }

    /// The cover art endpoint.
    pub fn cover_art_url(&self) -> (u: String)
        ensures
            u@ == self.url_of() + "/rest/getCoverArt"@,
    {
        self.url.clone().concat("/rest/getCoverArt")
    }

    /// The query parameters asking for cover art `id`, 300 pixels wide.
    pub fn cover_art_params(&self, id: &str) -> (params: Vec<(String, String)>)
        ensures
            pairs_view(params@) == subsonic_params_of(self.user_of(), self.pass_of()) + seq![
                ("id"@, id@),
                ("size"@, "300"@),
            ],
    {
        let mut params = self.subsonic_params();
        push_pair(&mut params, "id", id);
        push_pair(&mut params, "size", "300");
        assert(pairs_view(params@) =~= subsonic_params_of(self.user@, self.pass@) + seq![
            ("id"@, id@),
            ("size"@, "300"@),
        ]);
        params
    }
}

/// The entry to show from a "now playing" reply: the first one, if any.
pub fn first_entry(entries: Option<Vec<SubsonicEntry>>) -> (e: Option<SubsonicEntry>)
    ensures
        e == (match entries {
            Some(v) => if v@.len() > 0 {
                Some(v@[0])
            } else {
                None
            },
            None => None,
        }),
{
    match entries {
        Some(mut v) => {
            if v.is_empty() {
                None
            } else {
                Some(v.swap_remove(0))
            }
        },
        None => None,
    }
}

/// What is playing according to a Subsonic entry: missing artist or album read as
/// empty, the progress is unknown.
pub fn navidrome_now_playing(entry: SubsonicEntry, cover_art: Option<Vec<u8>>) -> (np: NowPlaying)
    ensures
        np.track@ == entry.title@,
        np.artist@ == or_empty(entry.artist),
        np.album@ == or_empty(entry.album),
        np.cover_art == cover_art,
        np.progress_secs is None,
        np.duration_secs == entry.duration,
{
    let artist = match entry.artist {
        Some(a) => a,
        None => String::new(),
    };
    let album = match entry.album {
        Some(a) => a,
        None => String::new(),
    };
    NowPlaying {
        track: entry.title,
        artist,
        album,
        cover_art,
        progress_secs: None,
        duration_secs: entry.duration,
    }
}

// ---- Spotify ----

/// Spotify's token endpoint.
pub const SPOTIFY_TOKEN_URL: &'static str = "https://accounts.spotify.com/api/token";

/// Spotify's "currently playing" endpoint.
pub const SPOTIFY_CURRENTLY_PLAYING_URL: &'static str = "https://api.spotify.com/v1/me/player/currently-playing";

/// A Spotify app's credentials and the user's refresh token.
pub struct SpotifyConfig {
    client_id: String,
    client_secret: String,
    refresh_token: String,
}

/// A Spotify "currently playing" reply.
pub struct SpotifyCurrentlyPlaying {
    pub is_playing: bool,
    pub progress_ms: Option<u64>,
    pub item: Option<SpotifyTrack>,
}

/// A track of a Spotify reply.
pub struct SpotifyTrack {
    pub name: String,
    pub duration_ms: u64,
    pub artists: Vec<SpotifyArtist>,
    pub album: SpotifyAlbum,
}

/// An artist of a Spotify track.
pub struct SpotifyArtist {
    pub name: String,
}

/// The album of a Spotify track.
pub struct SpotifyAlbum {
    pub name: String,
    pub images: Vec<SpotifyImage>,
}

/// A cover image of a Spotify album.
pub struct SpotifyImage {
    pub url: String,
}

/// What to do with the reply to a "currently playing" request.
#[derive(Debug, PartialEq, Eq)]
pub enum SpotifyReply {
    /// The access token was refused: get a new one and ask once more.
    RefreshToken,
    /// Nothing is playing.
    NothingPlaying,
    /// Decode the body.
    ReadBody,
}

/// The token request form.
pub open spec fn token_form_of(refresh_token: Seq<char>) -> Seq<(Seq<char>, Seq<char>)> {
    seq![("grant_type"@, "refresh_token"@), ("refresh_token"@, refresh_token)]
}

impl SpotifyConfig {
    /// Client id.
    pub closed spec fn client_id_of(&self) -> Seq<char> {
        self.client_id@
    }

    /// Client secret.
    pub closed spec fn client_secret_of(&self) -> Seq<char> {
        self.client_secret@
    }

    /// Refresh token.
    pub closed spec fn refresh_token_of(&self) -> Seq<char> {
        self.refresh_token@
    }

    /// A configuration with these credentials.
    pub fn new(client_id: String, client_secret: String, refresh_token: String) -> (c: Self)
        ensures
            c.client_id_of() == client_id@,
            c.client_secret_of() == client_secret@,
            c.refresh_token_of() == refresh_token@,
    {
        SpotifyConfig { client_id, client_secret, refresh_token }
    }

    /// Client id, the user name of the token request.
    pub fn client_id(&self) -> (r: &str)
        ensures
            r@ == self.client_id_of(),
    {
        self.client_id.as_str()
    }

    /// Client secret, the password of the token request.
    pub fn client_secret(&self) -> (r: &str)
        ensures
            r@ == self.client_secret_of(),
    {
        self.client_secret.as_str()
    }

    /// The form of a request for a new access token.
    pub fn token_form(&self) -> (form: Vec<(String, String)>)
        ensures
            pairs_view(form@) == token_form_of(self.refresh_token_of()),
    {
        let mut form: Vec<(String, String)> = Vec::new();
        push_pair(&mut form, "grant_type", "refresh_token");
        push_pair(&mut form, "refresh_token", self.refresh_token.as_str());
        assert(pairs_view(form@) =~= token_form_of(self.refresh_token@));
        form
    }
}

/// How to go on after a "currently playing" reply with HTTP status `status`; a
/// refused token is renewed only once.
pub fn spotify_reply(status: u16, after_refresh: bool) -> (r: SpotifyReply)
    ensures
        r == (if status == 401 && !after_refresh {
            SpotifyReply::RefreshToken
        } else if status == 204 {
            SpotifyReply::NothingPlaying
        } else {
            SpotifyReply::ReadBody
        }),
{
    if !after_refresh && status == 401 {
        return SpotifyReply::RefreshToken;
    }
    if status == 204 {
        return SpotifyReply::NothingPlaying;
    }
    SpotifyReply::ReadBody
}

/// The `parts` separated by `sep`.
pub open spec fn joined(parts: Seq<Seq<char>>, sep: Seq<char>) -> Seq<char>
    decreases parts.len(),
{
    if parts.len() == 0 {
        seq![]
    } else if parts.len() == 1 {
        parts[0]
    } else {
        joined(parts.drop_last(), sep) + sep + parts.last()
    }
}

/// The names of `artists`.
pub open spec fn artist_names(artists: Seq<SpotifyArtist>) -> Seq<Seq<char>> {
    Seq::new(artists.len(), |i: int| artists[i].name@)
}

/// The artist names, separated by ", ".
pub fn join_artists(artists: &Vec<SpotifyArtist>) -> (s: String)
    ensures
        s@ == joined(artist_names(artists@), ", "@),
{
    let mut s = String::new();
    let mut i: usize = 0;
    while i < artists.len()
        invariant
            i <= artists@.len(),
            s@ == joined(artist_names(artists@).take(i as int), ", "@),
        decreases artists.len() - i,
    {
        let ghost names = artist_names(artists@);
        assert(names.take(i + 1).drop_last() =~= names.take(i as int));
        if i > 0 {
            s.append(", ");
        } else {
            assert(names.take(0) =~= Seq::<Seq<char>>::empty());
        }
        s.append(artists[i].name.as_str());
        assert(s@ =~= joined(names.take(i + 1), ", "@));
        i = i + 1;
    }
    assert(artist_names(artists@).take(artists@.len() as int) =~= artist_names(artists@));
    s
}

/// Where to fetch the cover art of what a reply says is playing: the album's first
/// image; none when nothing plays.
pub fn spotify_cover_url(body: &SpotifyCurrentlyPlaying) -> (u: Option<String>)
    ensures
        u matches Some(url) ==> (body.is_playing && body.item is Some && body.item->0.album.images@.len()
            > 0 && url@ == body.item->0.album.images@[0].url@),
        u is None ==> !body.is_playing || body.item is None || body.item->0.album.images@.len() == 0,
{
    if !body.is_playing {
        return None;
    }
    match &body.item {
        Some(item) => {
            if item.album.images.len() > 0 {
                Some(item.album.images[0].url.clone())
            } else {
                None
            }
        },
        None => None,
    }
}

/// What is playing according to a Spotify reply: nothing unless it plays a track; the
/// artists joined by ", ", times in whole seconds (as 32-bit numbers).
pub fn spotify_now_playing(body: SpotifyCurrentlyPlaying, cover_art: Option<Vec<u8>>) -> (np: Option<
    NowPlaying,
>)
    ensures
        np is Some <==> body.is_playing && body.item is Some,
        np matches Some(np) ==> {
            let item = body.item->0;
            &&& np.track@ == item.name@
            &&& np.artist@ == joined(artist_names(item.artists@), ", "@)
            &&& np.album@ == item.album.name@
            &&& np.cover_art == cover_art
            &&& np.progress_secs == (match body.progress_ms {
                Some(ms) => Some((ms / 1000) as u32),
                None => None,
            })
            &&& np.duration_secs == Some((item.duration_ms / 1000) as u32)
        },
{
    if !body.is_playing {
        return None;
    }
    match body.item {
        Some(item) => {
            let artist = join_artists(&item.artists);
            let progress_secs = match body.progress_ms {
                Some(ms) => Some(#[verifier::truncate] ((ms / 1000) as u32)),
                None => None,
            };
            Some(
                NowPlaying {
                    track: item.name,
                    artist,
                    album: item.album.name,
                    cover_art,
                    progress_secs,
                    duration_secs: Some(#[verifier::truncate] ((item.duration_ms / 1000) as u32)),
                },
            )
        },
        None => None,
    }
}

// ---- serving ----

/// What to show from the backends' answers, in their configured order: the first that
/// has something playing; `None` (the idle screen) when none has.
pub fn first_playing(answers: Vec<Option<NowPlaying>>) -> (np: Option<NowPlaying>)
    ensures
        np is None <==> forall|i: int| 0 <= i < answers@.len() ==> answers@[i] is None,
        np is Some ==> exists|i: int|
            0 <= i < answers@.len() && answers@[i] == np && forall|j: int| 0 <= j < i ==> answers@[j] is None,
{
    let mut rest = answers;
    let ghost all = rest@;
    let mut i: usize = 0;
    while i < rest.len()
        invariant
            rest@ == all,
            all == answers@,
            i <= all.len(),
            forall|j: int| 0 <= j < i ==> all[j] is None,
        decreases rest.len() - i,
    {
        if rest[i].is_some() {
            let np = rest.swap_remove(i);
            assert(all[i as int] == np);
            assert(0 <= i < answers@.len() && answers@[i as int] == np && forall|j: int|
                0 <= j < i ==> answers@[j] is None);
            return np;
        }
        i = i + 1;
    }
    None
}

} // verus!
