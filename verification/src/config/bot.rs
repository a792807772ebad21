//! Settings of the bots.
use vstd::prelude::*;
use crate::text::{blank, is_space, law_trimmed_empty_iff_blank, trim};

verus! {

/// The built-in bot for four-player games.
pub const NATIVE_4P: &'static str = "akagi4p";

/// The built-in bot for three-player games.
pub const NATIVE_3P: &'static str = "akagi3p";

/// Default inference server. Pre-filled so users don't have to type it; the API
/// still stays inactive until they enable it and paste a key.
pub const DEFAULT_API_BASE_URL: &'static str = "https://mjapi.shinkuan.me";

/// Optional cloud-inference settings for the built-in (native) bot.
///
/// When they are active (see [`NativeApiConfig::is_active`]), the built-in bot
/// proxies each decision to a remote inference server instead of running the
/// embedded local model, which stays loaded as a fallback.
///
/// Everything defaults empty / disabled so a fresh install uses the fully
/// offline local model until the user opts in and pastes a key.
#[derive(Debug, Clone, PartialEq, Eq)]
pub struct NativeApiConfig {
    /// Route built-in-bot decisions through the remote API. Ignored unless a
    /// `base_url` and `key` are also set.
    pub enabled: bool,
    /// Base URL of the inference server, e.g. `https://host` or
    /// `http://127.0.0.1:8080`. A trailing slash is tolerated.
    pub base_url: String,
    /// Bearer API key (32 alphanumeric chars). Obtain one by redeeming a code.
    pub key: String,
    /// Model id for 4-player games. Empty: let the server pick its default 4p
    /// model.
    pub model_4p: String,
    /// Model id for 3-player games. Empty: server default 3p model.
    pub model_3p: String,
}

impl Default for NativeApiConfig {
    /// Disabled, with the default server and no key.
    fn default() -> (c: NativeApiConfig)
        ensures
            !c.enabled,
            c.base_url@ == DEFAULT_API_BASE_URL@,
            c.key@ == Seq::<char>::empty(),
            c.model_4p@ == Seq::<char>::empty(),
            c.model_3p@ == Seq::<char>::empty(),
            !c.active(),
    {
        NativeApiConfig {
            enabled: false,
            base_url: DEFAULT_API_BASE_URL.to_owned(),
            key: String::new(),
            model_4p: String::new(),
            model_3p: String::new(),
        }
    }
}

impl NativeApiConfig {
    /// Opted in, with a server URL and a key that are not blank.
    pub open spec fn active(self) -> bool {
        self.enabled && !blank(self.base_url@) && !blank(self.key@)
    }

    /// True only when the API path is fully configured: opted in with both a
    /// server URL and a key.
    pub fn is_active(&self) -> (r: bool)
        ensures
            r == self.active(),
    {
        proof {
            law_trimmed_empty_iff_blank(self.base_url@);
            law_trimmed_empty_iff_blank(self.key@);
        }
        self.enabled && !trim(self.base_url.as_str()).is_empty() && !trim(
            self.key.as_str(),
        ).is_empty()
    }

    /// Model id to request for the given player count. Empty string: omit the
    /// `model` field and let the server pick its game default.
    pub fn model_for(&self, num_players: u8) -> (r: &str)
        ensures
            r@ == (if num_players == 3 {
                self.model_3p@
            } else {
                self.model_4p@
            }),
    {
        if num_players == 3 {
            self.model_3p.as_str()
        } else {
            self.model_4p.as_str()
        }
    }
}

/// Settings of the bot manager.
#[derive(Debug, Clone)]
pub struct BotConfig {
    /// Master switch. When `false`, no bot manager is spawned and the MJAI
    /// event bus runs without a consumer.
    pub enabled: bool,
    /// Active bot for 4-player (yonma) games. Subdirectory of `dir`.
    pub active_4p: String,
    /// Active bot for 3-player (sanma) games. Empty string: no bot configured
    /// for 3p (analysis-only mode in 3p matches).
    pub active_3p: String,
    /// Legacy field, kept for migration (see
    /// [`BotConfig::migrate_legacy_active`]).
    pub active: String,
    /// Run `uv sync` automatically before spawning the bot. Disabling makes
    /// startup faster on slow disks but assumes the venv is already in sync.
    pub auto_sync: bool,
    /// Root directory containing one subdir per bot.
    pub dir: String,
    /// Optional cloud-inference settings for the built-in native bot.
    pub api: NativeApiConfig,
}

impl BotConfig {
    /// The active bot name for the given player count: `active_3p` for 3,
    /// `active_4p` for anything else.
    pub fn active_for(&self, num_players: u8) -> (r: &str)
        ensures
            r@ == (if num_players == 3 {
                self.active_3p@
            } else {
                self.active_4p@
            }),
    {
        if num_players == 3 {
            self.active_3p.as_str()
        } else {
            self.active_4p.as_str()
        }
    }

    /// The active bot for 4-player games once the legacy field is taken into
    /// account.
    pub open spec fn migrated_4p(self) -> Seq<char> {
        if self.active_4p@.len() == 0 {
            self.active@
        } else {
            self.active_4p@
        }
    }

    /// Whether `self` and `other` agree in all but the legacy field and the
    /// active bot for 4-player games.
    pub open spec fn agrees_beyond_active(self, other: BotConfig) -> bool {
        &&& self.enabled == other.enabled
        &&& self.active_3p == other.active_3p
        &&& self.auto_sync == other.auto_sync
        &&& self.dir == other.dir
        &&& self.api == other.api
    }

    /// Migrates the legacy `active` field into `active_4p` if the user's config
    /// file predates the per-mode split; a legacy value that is not needed is
    /// dropped.
    pub fn migrate_legacy_active(&mut self)
        ensures
            final(self).active@ == Seq::<char>::empty(),
            final(self).active_4p@ == old(self).migrated_4p(),
            final(self).agrees_beyond_active(*old(self)),
    {
        let mut legacy = String::new();
        std::mem::swap(&mut legacy, &mut self.active);
        if !legacy.as_str().is_empty() && self.active_4p.as_str().is_empty() {
            self.active_4p = legacy;
        }
        assert(self.active_4p@ =~= old(self).migrated_4p());
    }
}

/// Migrating twice is migrating once, and a bot that the user has chosen for
/// 4-player games is never replaced by the legacy one.
pub proof fn law_migration_happens_once(before: BotConfig, after: BotConfig)
    requires
        after.active@.len() == 0,
        after.active_4p@ == before.migrated_4p(),
    ensures
        after.migrated_4p() == after.active_4p@,
        before.active_4p@.len() > 0 ==> after.active_4p@ == before.active_4p@,
{
    assert(after.active@ =~= Seq::empty());
}

impl Default for BotConfig {
    /// Enabled, with the built-in bots, which are always available and need no
    /// install.
    fn default() -> (c: BotConfig)
        ensures
            c.enabled,
            c.active_4p@ == NATIVE_4P@,
            c.active_3p@ == NATIVE_3P@,
            c.active@ == Seq::<char>::empty(),
            c.auto_sync,
            c.dir@ == "mjai_bot"@,
            !c.api.enabled,
            c.api.base_url@ == DEFAULT_API_BASE_URL@,
            c.api.key@ == Seq::<char>::empty(),
            c.api.model_4p@ == Seq::<char>::empty(),
            c.api.model_3p@ == Seq::<char>::empty(),
            !c.api.active(),
    {
        BotConfig {
            enabled: true,
            active_4p: NATIVE_4P.to_owned(),
            active_3p: NATIVE_3P.to_owned(),
            active: String::new(),
            auto_sync: true,
            dir: "mjai_bot".to_owned(),
            api: NativeApiConfig::default(),
        }
    }
}

/// The bot settings as a config file gives them: what it leaves out is `None`.
#[derive(Debug, Clone)]
pub struct BotFile {
    pub enabled: Option<bool>,
    pub active_4p: Option<String>,
    pub active_3p: Option<String>,
    pub active: Option<String>,
    pub auto_sync: Option<bool>,
    pub dir: Option<String>,
    pub api: Option<NativeApiConfig>,
}

/// What a file says, or what goes without saying.
pub open spec fn or_else(said: Option<String>, otherwise: Seq<char>) -> Seq<char> {
    match said {
        Some(s) => s@,
        None => otherwise,
    }
}

impl BotFile {
    /// The active bot for 4-player games that the file amounts to. A file that
    /// predates the per-mode split has the legacy field only, which then names
    /// the bot; so it does where the field for 4-player games is empty.
    pub open spec fn chosen_4p(self) -> Seq<char> {
        let legacy = or_else(self.active, Seq::empty());
        match self.active_4p {
            None => if legacy.len() > 0 {
                legacy
            } else {
                NATIVE_4P@
            },
            Some(s) => if s@.len() == 0 {
                legacy
            } else {
                s@
            },
        }
    }
}

/// What a file says, or what goes without saying.
fn text_or(said: Option<String>, otherwise: &str) -> (r: String)
    ensures
        r@ == or_else(said, otherwise@),
{
    match said {
        Some(s) => s,
        None => otherwise.to_owned(),
    }
}

impl BotConfig {
    /// The settings that a config file amounts to: what it leaves out is as by
    /// default, and a legacy `active` is migrated.
    pub fn from_file(file: BotFile) -> (c: BotConfig)
        ensures
            c.enabled == (match file.enabled {
                Some(b) => b,
                None => true,
            }),
            c.active_4p@ == file.chosen_4p(),
            c.active_3p@ == or_else(file.active_3p, NATIVE_3P@),
            c.active@ == Seq::<char>::empty(),
            c.auto_sync == (match file.auto_sync {
                Some(b) => b,
                None => true,
            }),
            c.dir@ == or_else(file.dir, "mjai_bot"@),
            file.api matches Some(api) ==> c.api == api,
            file.api is None ==> {
                &&& !c.api.enabled
                &&& c.api.base_url@ == DEFAULT_API_BASE_URL@
                &&& c.api.key@ == Seq::<char>::empty()
                &&& c.api.model_4p@ == Seq::<char>::empty()
                &&& c.api.model_3p@ == Seq::<char>::empty()
            },
    {
        let legacy = text_or(file.active, "");
        let active_4p = match file.active_4p {
            Some(s) => s,
            None => if legacy.as_str().is_empty() {
                NATIVE_4P.to_owned()
            } else {
                String::new()
            },
        };
        let mut c = BotConfig {
            enabled: match file.enabled {
                Some(b) => b,
                None => true,
            },
            active_4p,
            active_3p: text_or(file.active_3p, NATIVE_3P),
            active: legacy,
            auto_sync: match file.auto_sync {
                Some(b) => b,
                None => true,
            },
            dir: text_or(file.dir, "mjai_bot"),
            api: match file.api {
                Some(api) => api,
                None => NativeApiConfig::default(),
            },
        };
        proof {
            reveal_strlit("");
            assert(legacy@ =~= or_else(file.active, Seq::empty()));
        }
        c.migrate_legacy_active();
        c
    }
}

/// The remote bot is in use exactly where it is switched on and both its address
/// and its key hold something other than white space.
pub proof fn law_when_the_remote_bot_is_used(c: NativeApiConfig)
    ensures
        c.active() <==> c.enabled && (exists|i: int|
            0 <= i < c.base_url@.len() && !is_space(#[trigger] c.base_url@[i])) && (exists|i: int|
            0 <= i < c.key@.len() && !is_space(#[trigger] c.key@[i])),
{
}

/// A bot that is chosen for four players stays chosen; where none is, the one
/// that older settings chose for every game takes its place, and it alone.
pub proof fn law_what_migration_chooses(c: BotConfig)
    ensures
        c.active_4p@.len() > 0 ==> c.migrated_4p() == c.active_4p@,
        c.active_4p@.len() == 0 ==> c.migrated_4p() == c.active@,
{
}

/// Migration touches the choice for four players and the older choice, and
/// nothing else.
pub proof fn law_migration_keeps_the_rest(before: BotConfig, after: BotConfig)
    requires
        after.agrees_beyond_active(before),
    ensures
        after.enabled == before.enabled,
        after.active_3p@ == before.active_3p@,
        after.auto_sync == before.auto_sync,
        after.dir@ == before.dir@,
        after.api == before.api,
{
}

/// The bot for four players that a settings file chooses: the one it names; where
/// it names an empty one, the one that older settings name; where it names none,
/// that too if there is one, and the built-in one otherwise.
pub proof fn law_what_a_file_chooses(file: BotFile)
    ensures
        file.active_4p matches Some(s) ==> (s@.len() > 0 ==> file.chosen_4p() == s@),
        file.active_4p matches Some(s) && s@.len() == 0 && file.active is None ==> file.chosen_4p()
            == Seq::<char>::empty(),
        file.active matches Some(older) ==> {
            &&& (file.active_4p matches Some(s) ==> (s@.len() == 0 ==> file.chosen_4p() == older@))
            &&& file.active_4p is None && older@.len() > 0 ==> file.chosen_4p() == older@
            &&& file.active_4p is None && older@.len() == 0 ==> file.chosen_4p() == NATIVE_4P@
        },
        file.active_4p is None && file.active is None ==> file.chosen_4p() == NATIVE_4P@,
{
}

/// What a file says counts, and where it is silent the default does.
pub proof fn law_what_is_said_counts(said: Option<String>, otherwise: Seq<char>)
    ensures
        said matches Some(s) ==> or_else(said, otherwise) == s@,
        said is None ==> or_else(said, otherwise) == otherwise,
{
}

} // verus!
