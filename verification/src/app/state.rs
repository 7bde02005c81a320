//! The state of the player: the queue of tracks, what plays, the Last.fm
//! session, the matching of tracks to Last.fm, and the settings screen.
//! Events come in as `Message`s; what the player must do outside (play
//! audio, call Last.fm, write files) goes out as `Effect`s.
use vstd::prelude::*;
use crate::cache::{CachedLink, LinkCache};
use crate::lastfm::{SimilarTrack, Track};
use crate::library::TrackMeta;
use crate::matcher::{AutoMatchResult, SearchResult};
use crate::scrobbler::Scrobbler;
use crate::theme::{AppTheme, Screen};

verus! {

broadcast use vstd::string::group_string_axioms;

/// Where the matching of the queue to Last.fm stands.
#[derive(Debug, Clone)]
pub enum MatchState {
    Idle,
    /// Tracks are searched one by one; `done` of `total` so far.
    Scanning { total: usize, done: usize },
    /// The user reviews the tracks that no search matched, first to last.
    Reviewing {
        pending: Vec<usize>,
        search_query: String,
        search_results: Vec<SearchResult>,
        search_loading: bool,
        preview_playing: bool,
    },
    Done,
}

/// The events of the player.
#[derive(Debug, Clone)]
pub enum Message {
    OpenFolder,
    /// A folder was chosen and its audio files read (`None`: no folder).
    FolderPicked(Option<Vec<TrackMeta>>),
    SelectTrack(usize),
    Play,
    Pause,
    Next,
    Previous,
    LastfmTick,
    LastfmUpdated(Option<Track>),
    LastfmArtworkFetched(Option<Vec<u8>>),
    StartAuth,
    AuthTokenReceived(Option<String>),
    AuthPollTick,
    AuthCompleted(Option<String>),
    ScrobbleTick,
    RecommendationReady(Vec<SimilarTrack>),
    ScanTrack(usize),
    TrackScanned(usize, AutoMatchResult),
    SearchQueryChanged(String),
    SearchSubmitted,
    SearchResults(Vec<SearchResult>),
    LinkTrack(usize, SearchResult),
    SkipTrack(usize),
    PreviewToggle,
    OpenSettings,
    CloseSettings,
    SettingsLastfmUsernameChanged(String),
    SettingsLastfmApiKeyChanged(String),
    SettingsLastfmApiSecretChanged(String),
    SettingsApiKeyHoverChanged(bool),
    SettingsApiSecretHoverChanged(bool),
    LibrarySearchChanged(String),
    SaveSettings,
    /// Whether the Last.fm settings were written to the `.env` file.
    SettingsSaved(bool),
    DiscordArtworkReady(Option<String>),
    ThemeChanged(AppTheme),
}

/// What the player must do outside its state, in order.
#[derive(Debug, Clone)]
pub enum Effect {
    /// Let the user choose a folder, then send `FolderPicked`.
    PickFolder,
    /// Send this message next.
    Dispatch(Message),
    /// Wait `SCAN_DELAY_MS`, search Last.fm for the track, decide with
    /// `try_auto_match`, then send `TrackScanned(idx, result)`.
    AutoMatch { idx: usize, api_key: String, title: String, artist: String, duration_secs: u64 },
    /// Search Last.fm for a title and artist, then send `SearchResults`.
    SearchTracks { api_key: String, title: String, artist: String },
    /// Search Last.fm for free text, then send `SearchResults`.
    SearchByQuery { api_key: String, query: String },
    /// Store the link in the links file.
    PersistLink { key: String, link: CachedLink },
    PausePlayer,
    /// Load the audio of the queue's track into the player (paused).
    LoadTrack(usize),
    PlayPlayer,
    /// Show the current track (or nothing) on Discord.
    UpdateDiscord,
    /// Ask Last.fm what the user plays now, then send `LastfmUpdated`.
    FetchNowPlaying { api_key: String, username: String },
    /// Ask Last.fm for an auth token, then send `AuthTokenReceived`.
    RequestToken { api_key: String, api_secret: String },
    OpenUrl(String),
    Log(String),
    /// Wait a second, ask Last.fm for the session of `token`, then send
    /// `AuthCompleted` with the session key if there is one.
    PollSession { api_key: String, api_secret: String, token: String },
    /// Tell Last.fm what plays now, then send `Play`.
    UpdateNowPlaying {
        api_key: String,
        api_secret: String,
        session_key: String,
        artist: String,
        title: String,
        album: String,
    },
    /// Scrobble the track, then send `ScrobbleTick`.
    Scrobble {
        api_key: String,
        api_secret: String,
        session_key: String,
        artist: String,
        title: String,
        album: String,
    },
    /// Write the Last.fm settings to `.env`, then send `SettingsSaved`.
    SaveLastfmSettings { api_key: String, api_secret: String, username: String },
    /// Write the theme's label to `config.toml`.
    SaveTheme(String),
}

/// The player.
pub struct App {
    pub queue: Vec<TrackMeta>,
    pub current: Option<usize>,
    pub playing: bool,
    pub lastfm_track: Option<Track>,
    pub lastfm_artwork: Option<Vec<u8>>,
    pub next_up: Option<usize>,
    pub lastfm_api_key: String,
    pub lastfm_username: String,
    pub scrobbler: Scrobbler,
    pub auth_token: Option<String>,
    pub auth_poll_attempts_left: u8,
    pub lastfm_auth_status: Option<String>,
    /// Seconds the current track has played, counted one per tick. (It
    /// stops at 2^24, where the `f32` counter that it stands for stops.)
    pub scrobble_timer: u64,
    pub current_duration_secs: u64,
    pub scrobbled: bool,
    pub match_state: MatchState,
    pub link_cache: LinkCache,
    pub screen: Screen,
    pub settings_lastfm_username: String,
    pub settings_lastfm_api_key: String,
    pub settings_lastfm_api_secret: String,
    pub hover_show_lastfm_api_key: bool,
    pub hover_show_lastfm_api_secret: bool,
    pub library_search: String,
    pub discord_artwork_url: Option<String>,
    pub app_theme: AppTheme,
}

/// The limit of the tick counter: `2^24`, past which an `f32` no longer
/// grows by one.
pub open spec fn timer_cap() -> u64 {
    16777216
}

impl App {
    /// What always holds of the player: the current track and the tracks
    /// under review are in the queue, the review has a track to show, and
    /// the tick counter is within its limit.
    pub open spec fn wf(&self) -> bool {
        &&& (self.current matches Some(c) ==> c < self.queue@.len())
        &&& (self.match_state matches MatchState::Reviewing { pending, .. } ==> {
            &&& pending@.len() > 0
            &&& forall|k: int| 0 <= k < pending@.len() ==> #[trigger] pending@[k] < self.queue@.len()
        })
        &&& self.scrobble_timer <= timer_cap()
    }

    /// The player at start-up, from the Last.fm settings of the
    /// environment, the stored links and the stored theme.
    pub fn new(
        lastfm_api_key: String,
        lastfm_username: String,
        lastfm_api_secret: String,
        session_key: Option<String>,
        link_cache: LinkCache,
        app_theme: AppTheme,
    ) -> (r: App)
        ensures
            r.wf(),
            r.queue@.len() == 0,
            r.current.is_none(),
            !r.playing,
            r.lastfm_track.is_none(),
            r.lastfm_artwork.is_none(),
            r.next_up.is_none(),
            r.lastfm_api_key == lastfm_api_key,
            r.lastfm_username == lastfm_username,
            r.scrobbler.api_key == lastfm_api_key,
            r.scrobbler.api_secret == lastfm_api_secret,
            r.scrobbler.session_key == session_key,
            r.auth_token.is_none(),
            r.auth_poll_attempts_left == 0,
            r.lastfm_auth_status.is_none(),
            r.scrobble_timer == 0,
            r.current_duration_secs == 0,
            !r.scrobbled,
            r.match_state is Idle,
            r.link_cache == link_cache,
            r.screen == Screen::Library,
            r.settings_lastfm_username == lastfm_username,
            r.settings_lastfm_api_key == lastfm_api_key,
            r.settings_lastfm_api_secret == lastfm_api_secret,
            !r.hover_show_lastfm_api_key,
            !r.hover_show_lastfm_api_secret,
            r.library_search@.len() == 0,
            r.discord_artwork_url.is_none(),
            r.app_theme == app_theme,
    {
        let scrobbler = match session_key {
            Some(sk) => Scrobbler::new_with_session(lastfm_api_key.clone(), lastfm_api_secret.clone(), sk),
            None => Scrobbler::new(lastfm_api_key.clone(), lastfm_api_secret.clone()),
        };
        App {
            queue: Vec::new(),
            current: None,
            playing: false,
            lastfm_track: None,
            lastfm_artwork: None,
            next_up: None,
            lastfm_api_key: lastfm_api_key.clone(),
            lastfm_username: lastfm_username.clone(),
            scrobbler,
            auth_token: None,
            auth_poll_attempts_left: 0,
            lastfm_auth_status: None,
            scrobble_timer: 0,
            current_duration_secs: 0,
            scrobbled: false,
            match_state: MatchState::Idle,
            link_cache,
            screen: Screen::Library,
            settings_lastfm_username: lastfm_username,
            settings_lastfm_api_key: lastfm_api_key,
            settings_lastfm_api_secret: lastfm_api_secret,
            hover_show_lastfm_api_key: false,
            hover_show_lastfm_api_secret: false,
            library_search: String::new(),
            discord_artwork_url: None,
            app_theme,
        }
    }

    /// The events that `update` can take in this state: those that name a
    /// track name one in the queue, and a scan count can still grow.
    pub open spec fn accepts(&self, m: Message) -> bool {
        match m {
            Message::ScanTrack(i) => i < self.queue@.len(),
            Message::TrackScanned(i, r) => (r is Matched ==> i < self.queue@.len()) && (
            self.match_state matches MatchState::Scanning { done, .. } ==> done < usize::MAX),
            Message::LinkTrack(i, _) => i < self.queue@.len(),
            Message::SkipTrack(i) => i < self.queue@.len(),
            Message::SelectTrack(i) => i < self.queue@.len(),
            _ => true,
        }
    }

    /// Whether `update` can take the event now (else the player would
    /// index past its queue).
    pub fn can_accept(&self, m: &Message) -> (r: bool)
        ensures
            r == self.accepts(*m),
    {
        match m {
            Message::ScanTrack(i) => *i < self.queue.len(),
            Message::TrackScanned(i, r) => {
                let first = match r {
                    AutoMatchResult::Matched { .. } => *i < self.queue.len(),
                    AutoMatchResult::NeedsReview => true,
                };
                let second = match &self.match_state {
                    MatchState::Scanning { done, .. } => *done < usize::MAX,
                    _ => true,
                };
                first && second
            },
            Message::LinkTrack(i, _) => *i < self.queue.len(),
            Message::SkipTrack(i) => *i < self.queue.len(),
            Message::SelectTrack(i) => *i < self.queue.len(),
            _ => true,
        }
    }
}

} // verus!
