//! The settings of the program, read from environment variables.
use vstd::prelude::*;

use crate::text;

verus! {

pub const MUSIC_PATH: &'static str = "LRCGET_MUSIC_PATH";

pub const DB_PATH: &'static str = "LRCGET_DB_PATH";

pub const CONCURRENCY: &'static str = "LRCSYNC_CONCURRENCY";

pub const CLEAN_FALLBACK: &'static str = "LRCSYNC_CLEAN_FALLBACK";

pub const RETRY_NOT_FOUND_DAYS: &'static str = "LRCSYNC_RETRY_NOT_FOUND_DAYS";

pub const REQUEST_INTERVAL_MS: &'static str = "LRCSYNC_REQUEST_INTERVAL_MS";

pub const REQUEST_TIMEOUT_SECONDS: &'static str = "LRCSYNC_REQUEST_TIMEOUT_SECONDS";

pub const ORPHAN_ACTION: &'static str = "LRCSYNC_ORPHAN_ACTION";

pub const FOLLOW_SYMLINKS: &'static str = "LRCSYNC_FOLLOW_SYMLINKS";

pub const FALLBACK_SCAN_SECONDS: &'static str = "LRCSYNC_FALLBACK_SCAN_SECONDS";

/// What a scan does with a lyrics file that belongs to no audio file.
#[derive(Debug, Clone, Copy, PartialEq, Eq, Structural)]
pub enum OrphanAction {
    Keep,
    Reconcile,
    Quarantine,
    Delete,
}

#[derive(Debug)]
pub enum ConfigError {
    NotAnInteger { name: &'static str },
    OutOfRange { name: &'static str, min: u64, max: u64, value: u64 },
    NotABoolean { name: &'static str },
    InvalidOrphanAction { word: String },
}

/// The contents of a `ConfigError`.
pub enum ConfigErrorView {
    NotAnInteger { name: Seq<char> },
    OutOfRange { name: Seq<char>, min: u64, max: u64, value: u64 },
    NotABoolean { name: Seq<char> },
    InvalidOrphanAction { word: Seq<char> },
}

impl View for ConfigError {
    type V = ConfigErrorView;

    open spec fn view(&self) -> ConfigErrorView {
        match self {
            ConfigError::NotAnInteger { name } => ConfigErrorView::NotAnInteger { name: name@ },
            ConfigError::OutOfRange { name, min, max, value } => ConfigErrorView::OutOfRange {
                name: name@,
                min: *min,
                max: *max,
                value: *value,
            },
            ConfigError::NotABoolean { name } => ConfigErrorView::NotABoolean { name: name@ },
            ConfigError::InvalidOrphanAction { word } => ConfigErrorView::InvalidOrphanAction {
                word: word@,
            },
        }
    }
}

/// What std's `Debug` makes of a text.
pub uninterp spec fn debug_text(s: Seq<char>) -> Seq<char>;

/// std's `Debug` for `str`: the text in double quotes, with escapes. Which characters are escaped,
/// and how, is left to the name `debug_text`.
#[verifier::external_body]
fn quoted(s: &str) -> (r: String)
    ensures
        r@ == debug_text(s@),
{
    format!("{s:?}")
}

/// What an error says.
pub open spec fn error_message(e: ConfigErrorView) -> Seq<char> {
    match e {
        ConfigErrorView::NotAnInteger { name } => name + " must be an integer"@,
        ConfigErrorView::OutOfRange { name, min, max, value } => name + " must be between "@
            + text::decimal_text(min as nat) + " and "@ + text::decimal_text(max as nat)
            + ", got "@ + text::decimal_text(value as nat),
        ConfigErrorView::NotABoolean { name } => name + " must be a boolean"@,
        ConfigErrorView::InvalidOrphanAction { word } => action_message(debug_text(word)),
    }
}

/// What is said of a word that names no action, given in quotes.
pub open spec fn action_message(quoted: Seq<char>) -> Seq<char> {
    "invalid "@ + ORPHAN_ACTION@ + "="@ + quoted
        + "; expected keep, reconcile, quarantine, or delete"@
}

/// What is said of a word that names no action, given in quotes.
pub fn invalid_action_message(quoted: &str) -> (r: String)
    ensures
        r@ == action_message(quoted@),
{
    "invalid ".to_owned().concat(ORPHAN_ACTION).concat("=").concat(quoted).concat(
        "; expected keep, reconcile, quarantine, or delete",
    )
}

impl ConfigError {
    /// What the error says.
    pub fn message(&self) -> (r: String)
        ensures
            r@ == error_message(self@),
    {
        match self {
            ConfigError::NotAnInteger { name } => (*name).to_owned().concat(" must be an integer"),
            ConfigError::OutOfRange { name, min, max, value } => (*name).to_owned().concat(
                " must be between ",
            ).concat(text::number_text(*min).as_str()).concat(" and ").concat(
                text::number_text(*max).as_str(),
            ).concat(", got ").concat(text::number_text(*value).as_str()),
            ConfigError::NotABoolean { name } => (*name).to_owned().concat(" must be a boolean"),
            ConfigError::InvalidOrphanAction { word } => invalid_action_message(
                quoted(word.as_str()).as_str(),
            ),
        }
    }
}

/// The value of the variable `name`, where it is set.
pub open spec fn setting(vars: Seq<(String, String)>, name: Seq<char>) -> Option<Seq<char>>
    decreases vars.len(),
{
    if vars.len() == 0 {
        None
    } else if vars.first().0@ == name {
        Some(vars.first().1@)
    } else {
        setting(vars.drop_first(), name)
    }
}

/// The text of a setting, without the white space around it; a blank one counts as unset.
pub open spec fn given(vars: Seq<(String, String)>, name: Seq<char>) -> Option<Seq<char>> {
    match setting(vars, name) {
        Some(raw) => if text::is_blank(raw) {
            None
        } else {
            Some(text::trimmed(raw))
        },
        None => None,
    }
}

/// A number between `min` and `max`, written so that it fits in `limit`.
pub open spec fn number_setting(
    vars: Seq<(String, String)>,
    name: Seq<char>,
    default: u64,
    min: u64,
    max: u64,
    limit: u64,
) -> Result<u64, ConfigErrorView> {
    match given(vars, name) {
        None => Ok(default),
        Some(raw) => match text::number_in(raw) {
            Some(v) => if v > limit {
                Err(ConfigErrorView::NotAnInteger { name })
            } else if min <= v <= max {
                Ok(v as u64)
            } else {
                Err(ConfigErrorView::OutOfRange { name, min, max, value: v as u64 })
            },
            None => Err(ConfigErrorView::NotAnInteger { name }),
        },
    }
}

pub open spec fn is_yes(word: Seq<char>) -> bool {
    word == "1"@ || word == "true"@ || word == "yes"@ || word == "y"@ || word == "on"@
}

pub open spec fn is_no(word: Seq<char>) -> bool {
    word == "0"@ || word == "false"@ || word == "no"@ || word == "n"@ || word == "off"@
}

pub open spec fn bool_setting(
    vars: Seq<(String, String)>,
    name: Seq<char>,
    default: bool,
) -> Result<bool, ConfigErrorView> {
    match given(vars, name) {
        None => Ok(default),
        Some(raw) => if is_yes(text::lowered(raw)) {
            Ok(true)
        } else if is_no(text::lowered(raw)) {
            Ok(false)
        } else {
            Err(ConfigErrorView::NotABoolean { name })
        },
    }
}

/// The action that a word names, in any case and with any white space around it. No word means
/// `keep`.
pub open spec fn orphan_action_in(value: Seq<char>) -> Result<OrphanAction, ConfigErrorView> {
    let word = text::lowered(text::trimmed(value));
    if word == ""@ || word == "keep"@ {
        Ok(OrphanAction::Keep)
    } else if word == "reconcile"@ {
        Ok(OrphanAction::Reconcile)
    } else if word == "quarantine"@ {
        Ok(OrphanAction::Quarantine)
    } else if word == "delete"@ {
        Ok(OrphanAction::Delete)
    } else {
        Err(ConfigErrorView::InvalidOrphanAction { word })
    }
}

impl OrphanAction {
    pub fn parse(value: &str) -> (r: Result<Self, ConfigError>)
        ensures
            match r {
                Ok(action) => orphan_action_in(value@) == Ok::<OrphanAction, ConfigErrorView>(
                    action,
                ),
                Err(e) => orphan_action_in(value@) == Err::<OrphanAction, ConfigErrorView>(e@),
            },
    {
        let word = text::to_ascii_lowercase(value.trim());
        if text::str_eq(word.as_str(), "") || text::str_eq(word.as_str(), "keep") {
            Ok(OrphanAction::Keep)
        } else if text::str_eq(word.as_str(), "reconcile") {
            Ok(OrphanAction::Reconcile)
        } else if text::str_eq(word.as_str(), "quarantine") {
            Ok(OrphanAction::Quarantine)
        } else if text::str_eq(word.as_str(), "delete") {
            Ok(OrphanAction::Delete)
        } else {
            Err(ConfigError::InvalidOrphanAction { word })
        }
    }
}

/// The value of the variable `name` among `vars`.
pub fn find_setting(vars: &Vec<(String, String)>, name: &str) -> (r: Option<String>)
    ensures
        text::option_text(r) == setting(vars@, name@),
{
    let mut i: usize = 0;
    proof {
        assert(vars@.skip(0) =~= vars@);
    }
    while i < vars.len()
        invariant
            i <= vars.len(),
            setting(vars@.skip(i as int), name@) == setting(vars@, name@),
        decreases vars.len() - i,
    {
        proof {
            assert(vars@.skip(i as int).drop_first() =~= vars@.skip(i + 1));
        }
        if text::str_eq(vars[i].0.as_str(), name) {
            return Some(vars[i].1.clone());
        }
        i += 1;
    }
    None
}

fn find_given(vars: &Vec<(String, String)>, name: &str) -> (r: Option<String>)
    ensures
        text::option_text(r) == given(vars@, name@),
{
    match find_setting(vars, name) {
        Some(raw) => {
            proof {
                text::law_trimmed(raw@);
            }
            let word = text::trimmed_text(raw.as_str());
            if word.as_str().is_empty() {
                None
            } else {
                Some(word)
            }
        },
        None => None,
    }
}

fn parse_limited(
    vars: &Vec<(String, String)>,
    name: &'static str,
    default: u64,
    min: u64,
    max: u64,
    limit: u64,
) -> (r: Result<u64, ConfigError>)
    ensures
        match r {
            Ok(v) => number_setting(vars@, name@, default, min, max, limit) == Ok::<
                u64,
                ConfigErrorView,
            >(v),
            Err(e) => number_setting(vars@, name@, default, min, max, limit) == Err::<
                u64,
                ConfigErrorView,
            >(e@),
        },
{
    match find_given(vars, name) {
        Some(raw) => match text::parse_number(raw.as_str(), limit) {
            Some(value) => {
                if min <= value && value <= max {
                    Ok(value)
                } else {
                    Err(ConfigError::OutOfRange { name, min, max, value })
                }
            },
            None => Err(ConfigError::NotAnInteger { name }),
        },
        None => Ok(default),
    }
}

/// A `u64` setting: the default where it is unset or blank, else a number between `min` and `max`.
pub fn parse_u64(
    vars: &Vec<(String, String)>,
    name: &'static str,
    default: u64,
    min: u64,
    max: u64,
) -> (r: Result<u64, ConfigError>)
    ensures
        match r {
            Ok(v) => number_setting(vars@, name@, default, min, max, u64::MAX) == Ok::<
                u64,
                ConfigErrorView,
            >(v),
            Err(e) => number_setting(vars@, name@, default, min, max, u64::MAX) == Err::<
                u64,
                ConfigErrorView,
            >(e@),
        },
{
    parse_limited(vars, name, default, min, max, u64::MAX)
}

/// A `usize` setting: the default where it is unset or blank, else a number between `min` and
/// `max`.
pub fn parse_usize(
    vars: &Vec<(String, String)>,
    name: &'static str,
    default: usize,
    min: usize,
    max: usize,
) -> (r: Result<usize, ConfigError>)
    ensures
        match r {
            Ok(v) => number_setting(
                vars@,
                name@,
                default as u64,
                min as u64,
                max as u64,
                usize::MAX as u64,
            ) == Ok::<u64, ConfigErrorView>(v as u64),
            Err(e) => number_setting(
                vars@,
                name@,
                default as u64,
                min as u64,
                max as u64,
                usize::MAX as u64,
            ) == Err::<u64, ConfigErrorView>(e@),
        },
{
    match parse_limited(
        vars,
        name,
        default as u64,
        min as u64,
        max as u64,
        usize::MAX as u64,
    ) {
        Ok(v) => Ok(v as usize),
        Err(e) => Err(e),
    }
}

/// A yes-or-no setting: the default where it is unset or blank.
pub fn parse_bool(vars: &Vec<(String, String)>, name: &'static str, default: bool) -> (r: Result<
    bool,
    ConfigError,
>)
    ensures
        match r {
            Ok(v) => bool_setting(vars@, name@, default) == Ok::<bool, ConfigErrorView>(v),
            Err(e) => bool_setting(vars@, name@, default) == Err::<bool, ConfigErrorView>(e@),
        },
{
    match find_given(vars, name) {
        Some(raw) => {
            let word = text::to_ascii_lowercase(raw.as_str());
            let w = word.as_str();
            if text::str_eq(w, "1") || text::str_eq(w, "true") || text::str_eq(w, "yes")
                || text::str_eq(w, "y") || text::str_eq(w, "on") {
                Ok(true)
            } else if text::str_eq(w, "0") || text::str_eq(w, "false") || text::str_eq(w, "no")
                || text::str_eq(w, "n") || text::str_eq(w, "off") {
                Ok(false)
            } else {
                Err(ConfigError::NotABoolean { name })
            }
        },
        None => Ok(default),
    }
}

#[derive(Debug)]
pub struct Config {
    pub music_dir: String,
    pub db_file: String,
    /// Worker threads of a scan.
    pub concurrency: usize,
    /// Whether a lookup that finds nothing is repeated with cleaned tags.
    pub clean_fallback: bool,
    pub retry_not_found_days: u64,
    /// The least time between two requests, in milliseconds.
    pub request_interval_ms: u64,
    pub request_timeout_secs: u64,
    pub orphan_action: OrphanAction,
    pub follow_symlinks: bool,
    /// The time between two full scans, in seconds.
    pub fallback_interval_secs: u64,
}

/// The contents of a `Config`.
pub struct ConfigView {
    pub music_dir: Seq<char>,
    pub db_file: Seq<char>,
    pub concurrency: u64,
    pub clean_fallback: bool,
    pub retry_not_found_days: u64,
    pub request_interval_ms: u64,
    pub request_timeout_secs: u64,
    pub orphan_action: OrphanAction,
    pub follow_symlinks: bool,
    pub fallback_interval_secs: u64,
}

impl View for Config {
    type V = ConfigView;

    open spec fn view(&self) -> ConfigView {
        ConfigView {
            music_dir: self.music_dir@,
            db_file: self.db_file@,
            concurrency: self.concurrency as u64,
            clean_fallback: self.clean_fallback,
            retry_not_found_days: self.retry_not_found_days,
            request_interval_ms: self.request_interval_ms,
            request_timeout_secs: self.request_timeout_secs,
            orphan_action: self.orphan_action,
            follow_symlinks: self.follow_symlinks,
            fallback_interval_secs: self.fallback_interval_secs,
        }
    }
}

impl Clone for Config {
    fn clone(&self) -> (r: Self)
        ensures
            r@ == self@,
    {
        Config {
            music_dir: self.music_dir.clone(),
            db_file: self.db_file.clone(),
            concurrency: self.concurrency,
            clean_fallback: self.clean_fallback,
            retry_not_found_days: self.retry_not_found_days,
            request_interval_ms: self.request_interval_ms,
            request_timeout_secs: self.request_timeout_secs,
            orphan_action: self.orphan_action,
            follow_symlinks: self.follow_symlinks,
            fallback_interval_secs: self.fallback_interval_secs,
        }
    }
}

pub open spec fn text_setting(
    vars: Seq<(String, String)>,
    name: Seq<char>,
    default: Seq<char>,
) -> Seq<char> {
    match setting(vars, name) {
        Some(value) => value,
        None => default,
    }
}

pub open spec fn concurrency_in(vars: Seq<(String, String)>) -> Result<u64, ConfigErrorView> {
    number_setting(vars, CONCURRENCY@, 8, 1, 128, usize::MAX as u64)
}

pub open spec fn retry_days_in(vars: Seq<(String, String)>) -> Result<u64, ConfigErrorView> {
    number_setting(vars, RETRY_NOT_FOUND_DAYS@, 7, 1, 3650, u64::MAX)
}

pub open spec fn request_interval_in(vars: Seq<(String, String)>) -> Result<u64, ConfigErrorView> {
    number_setting(vars, REQUEST_INTERVAL_MS@, 750, 0, 60_000, u64::MAX)
}

pub open spec fn request_timeout_in(vars: Seq<(String, String)>) -> Result<u64, ConfigErrorView> {
    number_setting(vars, REQUEST_TIMEOUT_SECONDS@, 30, 0, u64::MAX, u64::MAX)
}

pub open spec fn fallback_scan_in(vars: Seq<(String, String)>) -> Result<u64, ConfigErrorView> {
    number_setting(vars, FALLBACK_SCAN_SECONDS@, 43_200, 60, 604_800, u64::MAX)
}

/// The settings that the variables spell out, or the first of them that is wrong.
pub open spec fn config_in(vars: Seq<(String, String)>) -> Result<ConfigView, ConfigErrorView> {
    let clean_fallback = bool_setting(vars, CLEAN_FALLBACK@, true);
    let orphan_action = orphan_action_in(text_setting(vars, ORPHAN_ACTION@, "keep"@));
    let follow_symlinks = bool_setting(vars, FOLLOW_SYMLINKS@, false);
    if concurrency_in(vars) is Err {
        Err(concurrency_in(vars)->Err_0)
    } else if clean_fallback is Err {
        Err(clean_fallback->Err_0)
    } else if retry_days_in(vars) is Err {
        Err(retry_days_in(vars)->Err_0)
    } else if request_interval_in(vars) is Err {
        Err(request_interval_in(vars)->Err_0)
    } else if request_timeout_in(vars) is Err {
        Err(request_timeout_in(vars)->Err_0)
    } else if orphan_action is Err {
        Err(orphan_action->Err_0)
    } else if follow_symlinks is Err {
        Err(follow_symlinks->Err_0)
    } else if fallback_scan_in(vars) is Err {
        Err(fallback_scan_in(vars)->Err_0)
    } else {
        Ok(
            ConfigView {
                music_dir: text_setting(vars, MUSIC_PATH@, "/music"@),
                db_file: text_setting(vars, DB_PATH@, "/config/lyrics.db"@),
                concurrency: concurrency_in(vars)->Ok_0,
                clean_fallback: clean_fallback->Ok_0,
                retry_not_found_days: retry_days_in(vars)->Ok_0,
                request_interval_ms: request_interval_in(vars)->Ok_0,
                request_timeout_secs: request_timeout_in(vars)->Ok_0,
                orphan_action: orphan_action->Ok_0,
                follow_symlinks: follow_symlinks->Ok_0,
                fallback_interval_secs: fallback_scan_in(vars)->Ok_0,
            },
        )
    }
}

fn setting_or(vars: &Vec<(String, String)>, name: &str, default: &str) -> (r: String)
    ensures
        r@ == text_setting(vars@, name@, default@),
{
    match find_setting(vars, name) {
        Some(value) => value,
        None => default.to_owned(),
    }
}

impl Config {
    /// Reads the settings from the environment's variables, given as pairs of name and value.
    pub fn from_env(vars: &Vec<(String, String)>) -> (r: Result<Self, ConfigError>)
        ensures
            match r {
                Ok(config) => config_in(vars@) == Ok::<ConfigView, ConfigErrorView>(config@),
                Err(e) => config_in(vars@) == Err::<ConfigView, ConfigErrorView>(e@),
            },
    {
        let music_dir = setting_or(vars, MUSIC_PATH, "/music");
        let db_file = setting_or(vars, DB_PATH, "/config/lyrics.db");
        let concurrency = match parse_usize(vars, CONCURRENCY, 8, 1, 128) {
            Ok(v) => v,
            Err(e) => return Err(e),
        };
        let clean_fallback = match parse_bool(vars, CLEAN_FALLBACK, true) {
            Ok(v) => v,
            Err(e) => return Err(e),
        };
        let retry_not_found_days = match parse_u64(vars, RETRY_NOT_FOUND_DAYS, 7, 1, 3650) {
            Ok(v) => v,
            Err(e) => return Err(e),
        };
        let request_interval_ms = match parse_u64(vars, REQUEST_INTERVAL_MS, 750, 0, 60_000) {
            Ok(v) => v,
            Err(e) => return Err(e),
        };
        let request_timeout_secs = match parse_u64(
            vars,
            REQUEST_TIMEOUT_SECONDS,
            30,
            0,
            u64::MAX,
        ) {
            Ok(v) => v,
            Err(e) => return Err(e),
        };
        let orphan_action = match OrphanAction::parse(
            setting_or(vars, ORPHAN_ACTION, "keep").as_str(),
        ) {
            Ok(v) => v,
            Err(e) => return Err(e),
        };
        let follow_symlinks = match parse_bool(vars, FOLLOW_SYMLINKS, false) {
            Ok(v) => v,
            Err(e) => return Err(e),
        };
        let fallback_interval_secs = match parse_u64(
            vars,
            FALLBACK_SCAN_SECONDS,
            43_200,
            60,
            604_800,
        ) {
            Ok(v) => v,
            Err(e) => return Err(e),
        };
        Ok(
            Config {
                music_dir,
                db_file,
                concurrency,
                clean_fallback,
                retry_not_found_days,
                request_interval_ms,
                request_timeout_secs,
                orphan_action,
                follow_symlinks,
                fallback_interval_secs,
            },
        )
    }
}

/// Every configuration that is accepted keeps the documented bounds.
pub proof fn law_accepted_settings_are_in_bounds(vars: Seq<(String, String)>)
    requires
        config_in(vars) is Ok,
    ensures
        ({
            let c = config_in(vars)->Ok_0;
            &&& 1 <= c.concurrency <= 128
            &&& 1 <= c.retry_not_found_days <= 3650
            &&& c.request_interval_ms <= 60_000
            &&& 60 <= c.fallback_interval_secs <= 604_800
        }),
{
}

/// Where no variable of the program is set, the documented defaults hold.
pub proof fn law_defaults(vars: Seq<(String, String)>)
    requires
        forall|name: Seq<char>|
            name == MUSIC_PATH@ || name == DB_PATH@ || name == CONCURRENCY@ || name
                == CLEAN_FALLBACK@ || name == RETRY_NOT_FOUND_DAYS@ || name == REQUEST_INTERVAL_MS@
                || name == REQUEST_TIMEOUT_SECONDS@ || name == ORPHAN_ACTION@ || name
                == FOLLOW_SYMLINKS@ || name == FALLBACK_SCAN_SECONDS@ ==> #[trigger] setting(
                vars,
                name,
            ) is None,
    ensures
        config_in(vars) == Ok::<ConfigView, ConfigErrorView>(
            ConfigView {
                music_dir: "/music"@,
                db_file: "/config/lyrics.db"@,
                concurrency: 8,
                clean_fallback: true,
                retry_not_found_days: 7,
                request_interval_ms: 750,
                request_timeout_secs: 30,
                orphan_action: OrphanAction::Keep,
                follow_symlinks: false,
                fallback_interval_secs: 43_200,
            },
        ),
{
    lemma_default_word();
}

/// The value of a variable is that of its first entry, and it is unset where it has none.
pub proof fn law_setting_is_the_first_entry(vars: Seq<(String, String)>, name: Seq<char>)
    ensures
        match setting(vars, name) {
            Some(value) => exists|i: int|
                0 <= i < vars.len() && (#[trigger] vars[i]).0@ == name && vars[i].1@ == value
                    && forall|j: int| 0 <= j < i ==> (#[trigger] vars[j]).0@ != name,
            None => forall|j: int| 0 <= j < vars.len() ==> (#[trigger] vars[j]).0@ != name,
        },
    decreases vars.len(),
{
    if vars.len() > 0 {
        let rest = vars.drop_first();
        law_setting_is_the_first_entry(rest, name);
        if vars.first().0@ == name {
            assert(vars[0].0@ == name);
        } else {
            match setting(rest, name) {
                Some(value) => {
                    let i = choose|i: int|
                        0 <= i < rest.len() && (#[trigger] rest[i]).0@ == name && rest[i].1@
                            == value && forall|j: int|
                            0 <= j < i ==> (#[trigger] rest[j]).0@ != name;
                    assert(vars[i + 1] == rest[i]);
                    assert forall|j: int| 0 <= j < i + 1 implies (#[trigger] vars[j]).0@
                        != name by {
                        if j > 0 {
                            assert(vars[j] == rest[j - 1]);
                        }
                    }
                },
                None => {
                    assert forall|j: int| 0 <= j < vars.len() implies (#[trigger] vars[j]).0@
                        != name by {
                        if j > 0 {
                            assert(vars[j] == rest[j - 1]);
                        }
                    }
                },
            }
        }
    }
}

/// A variable of the program is unset, or blank.
pub open spec fn is_left_out(vars: Seq<(String, String)>, name: Seq<char>) -> bool {
    setting(vars, name) is None || text::is_blank(setting(vars, name)->0)
}

/// The word that a variable holds, in lower case and without the white space around it.
pub open spec fn word_in(vars: Seq<(String, String)>, name: Seq<char>) -> Seq<char> {
    text::lowered(text::trimmed(setting(vars, name)->0))
}

/// The number that a variable writes, if it writes one.
pub open spec fn number_of(vars: Seq<(String, String)>, name: Seq<char>) -> Option<nat> {
    text::number_in(text::trimmed(setting(vars, name)->0))
}

/// Each setting of an accepted configuration comes from its own variable: a path as it stands, a
/// number as it is written, a boolean by its word. Where the variable is unset, or blank and not a
/// path, it is the default.
pub proof fn law_settings_come_from_their_variables(vars: Seq<(String, String)>)
    requires
        config_in(vars) is Ok,
    ensures
        ({
            let c = config_in(vars)->Ok_0;
            &&& c.music_dir == (if setting(vars, MUSIC_PATH@) is Some {
                setting(vars, MUSIC_PATH@)->0
            } else {
                "/music"@
            })
            &&& c.db_file == (if setting(vars, DB_PATH@) is Some {
                setting(vars, DB_PATH@)->0
            } else {
                "/config/lyrics.db"@
            })
            &&& if is_left_out(vars, CONCURRENCY@) {
                c.concurrency == 8
            } else {
                number_of(vars, CONCURRENCY@) == Some(c.concurrency as nat)
            }
            &&& if is_left_out(vars, RETRY_NOT_FOUND_DAYS@) {
                c.retry_not_found_days == 7
            } else {
                number_of(vars, RETRY_NOT_FOUND_DAYS@) == Some(c.retry_not_found_days as nat)
            }
            &&& if is_left_out(vars, REQUEST_INTERVAL_MS@) {
                c.request_interval_ms == 750
            } else {
                number_of(vars, REQUEST_INTERVAL_MS@) == Some(c.request_interval_ms as nat)
            }
            &&& if is_left_out(vars, REQUEST_TIMEOUT_SECONDS@) {
                c.request_timeout_secs == 30
            } else {
                number_of(vars, REQUEST_TIMEOUT_SECONDS@) == Some(c.request_timeout_secs as nat)
            }
            &&& if is_left_out(vars, FALLBACK_SCAN_SECONDS@) {
                c.fallback_interval_secs == 43_200
            } else {
                number_of(vars, FALLBACK_SCAN_SECONDS@) == Some(c.fallback_interval_secs as nat)
            }
        }),
{
}

/// A boolean setting is on for `1`, `true`, `yes`, `y` and `on`, and off for `0`, `false`, `no`,
/// `n` and `off`, in any case. Unset or blank, cleaned lookups are on and links are not followed.
pub proof fn law_booleans_go_by_their_words(vars: Seq<(String, String)>)
    requires
        config_in(vars) is Ok,
    ensures
        ({
            let c = config_in(vars)->Ok_0;
            let clean = word_in(vars, CLEAN_FALLBACK@);
            let links = word_in(vars, FOLLOW_SYMLINKS@);
            &&& is_left_out(vars, CLEAN_FALLBACK@) ==> c.clean_fallback
            &&& is_left_out(vars, FOLLOW_SYMLINKS@) ==> !c.follow_symlinks
            &&& !is_left_out(vars, CLEAN_FALLBACK@) ==> if c.clean_fallback {
                clean == "1"@ || clean == "true"@ || clean == "yes"@ || clean == "y"@ || clean
                    == "on"@
            } else {
                clean == "0"@ || clean == "false"@ || clean == "no"@ || clean == "n"@ || clean
                    == "off"@
            }
            &&& !is_left_out(vars, FOLLOW_SYMLINKS@) ==> if c.follow_symlinks {
                links == "1"@ || links == "true"@ || links == "yes"@ || links == "y"@ || links
                    == "on"@
            } else {
                links == "0"@ || links == "false"@ || links == "no"@ || links == "n"@ || links
                    == "off"@
            }
        }),
{
}

/// What becomes of unmatched lyrics goes by the word for it, in any case; they are kept where it is
/// unset or blank.
pub proof fn law_orphan_action_goes_by_its_word(vars: Seq<(String, String)>)
    requires
        config_in(vars) is Ok,
    ensures
        ({
            let action = config_in(vars)->Ok_0.orphan_action;
            let word = word_in(vars, ORPHAN_ACTION@);
            &&& is_left_out(vars, ORPHAN_ACTION@) ==> action == OrphanAction::Keep
            &&& !is_left_out(vars, ORPHAN_ACTION@) ==> match action {
                OrphanAction::Keep => word == "keep"@,
                OrphanAction::Reconcile => word == "reconcile"@,
                OrphanAction::Quarantine => word == "quarantine"@,
                OrphanAction::Delete => word == "delete"@,
            }
        }),
{
    lemma_default_word();
    if setting(vars, ORPHAN_ACTION@) is Some {
        let value = setting(vars, ORPHAN_ACTION@)->0;
        text::law_trimmed(value);
        text::law_lower_case(text::trimmed(value));
        reveal_strlit("");
        assert(text::is_blank(value) ==> word_in(vars, ORPHAN_ACTION@) =~= ""@);
        lemma_action_words();
    }
}

proof fn lemma_action_words()
    ensures
        ""@.len() == 0,
        "keep"@.len() == 4,
        "reconcile"@.len() == 9,
        "quarantine"@.len() == 10,
        "delete"@.len() == 6,
{
    reveal_strlit("");
    reveal_strlit("keep");
    reveal_strlit("reconcile");
    reveal_strlit("quarantine");
    reveal_strlit("delete");
}

proof fn lemma_default_word()
    ensures
        text::lowered(text::trimmed("keep"@)) == "keep"@,
{
    reveal_strlit("keep");
    let word = "keep"@;
    assert(!text::is_white_space(word.first()) && !text::is_white_space(word.last()));
    assert(text::trimmed(word) == word);
    assert(text::lowered(word) =~= word);
}

/// A number setting is fine where it is unset or blank, and where it writes a number in bounds.
pub open spec fn is_fine_number(
    vars: Seq<(String, String)>,
    name: Seq<char>,
    min: nat,
    max: nat,
) -> bool {
    is_left_out(vars, name) || (number_of(vars, name) is Some && min <= number_of(vars, name)->0
        <= max)
}

/// A boolean setting is fine where it is unset or blank, and where it holds one of ten words.
pub open spec fn is_fine_boolean(vars: Seq<(String, String)>, name: Seq<char>) -> bool {
    let word = word_in(vars, name);
    ||| is_left_out(vars, name)
    ||| word == "1"@ || word == "true"@ || word == "yes"@ || word == "y"@ || word == "on"@
    ||| word == "0"@ || word == "false"@ || word == "no"@ || word == "n"@ || word == "off"@
}

/// A configuration is accepted exactly where every setting is fine by itself.
pub proof fn law_accepted_exactly_where_all_is_fine(vars: Seq<(String, String)>)
    ensures
        config_in(vars) is Ok <==> {
            &&& is_fine_number(vars, CONCURRENCY@, 1, 128)
            &&& is_fine_boolean(vars, CLEAN_FALLBACK@)
            &&& is_fine_number(vars, RETRY_NOT_FOUND_DAYS@, 1, 3650)
            &&& is_fine_number(vars, REQUEST_INTERVAL_MS@, 0, 60_000)
            &&& is_fine_number(vars, REQUEST_TIMEOUT_SECONDS@, 0, u64::MAX as nat)
            &&& {
                let word = word_in(vars, ORPHAN_ACTION@);
                ||| is_left_out(vars, ORPHAN_ACTION@)
                ||| word == "keep"@ || word == "reconcile"@ || word == "quarantine"@ || word
                    == "delete"@
            }
            &&& is_fine_boolean(vars, FOLLOW_SYMLINKS@)
            &&& is_fine_number(vars, FALLBACK_SCAN_SECONDS@, 60, 604_800)
        },
{
    lemma_default_word();
    lemma_action_words();
    if setting(vars, ORPHAN_ACTION@) is Some {
        let value = setting(vars, ORPHAN_ACTION@)->0;
        text::law_trimmed(value);
        text::law_lower_case(text::trimmed(value));
        assert(text::is_blank(value) ==> word_in(vars, ORPHAN_ACTION@) =~= ""@);
    }
}

/// An error names a setting that is wrong, and says how: it writes no number that fits, or one out
/// of its bounds, or no word for yes or no, or no action.
pub proof fn law_errors_name_what_is_wrong(vars: Seq<(String, String)>)
    requires
        config_in(vars) is Err,
    ensures
        match config_in(vars)->Err_0 {
            ConfigErrorView::NotAnInteger { name } => !is_left_out(vars, name) && (number_of(
                vars,
                name,
            ) is None || number_of(vars, name)->0 > usize::MAX),
            ConfigErrorView::OutOfRange { name, min, max, value } => !is_left_out(vars, name)
                && number_of(vars, name) == Some(value as nat) && !(min <= value <= max) && {
                ||| name == CONCURRENCY@ && min == 1 && max == 128
                ||| name == RETRY_NOT_FOUND_DAYS@ && min == 1 && max == 3650
                ||| name == REQUEST_INTERVAL_MS@ && min == 0 && max == 60_000
                ||| name == FALLBACK_SCAN_SECONDS@ && min == 60 && max == 604_800
            },
            ConfigErrorView::NotABoolean { name } => !is_fine_boolean(vars, name) && (name
                == CLEAN_FALLBACK@ || name == FOLLOW_SYMLINKS@),
            ConfigErrorView::InvalidOrphanAction { word } => !is_left_out(vars, ORPHAN_ACTION@)
                && word == word_in(vars, ORPHAN_ACTION@) && word != "keep"@ && word != "reconcile"@
                && word != "quarantine"@ && word != "delete"@,
        },
{
    lemma_default_word();
    lemma_action_words();
    if setting(vars, ORPHAN_ACTION@) is Some {
        let value = setting(vars, ORPHAN_ACTION@)->0;
        text::law_trimmed(value);
        text::law_lower_case(text::trimmed(value));
        assert(text::is_blank(value) ==> word_in(vars, ORPHAN_ACTION@) =~= ""@);
    }
}

/// An action is read from the word for it, in any case and with any white space around it, and from
/// no other; no word at all means `keep`.
pub proof fn law_actions_have_one_word_each(value: Seq<char>)
    ensures
        ({
            let word = text::lowered(text::trimmed(value));
            &&& orphan_action_in(value) is Ok ==> match orphan_action_in(value)->Ok_0 {
                OrphanAction::Keep => word == "keep"@ || word.len() == 0,
                OrphanAction::Reconcile => word == "reconcile"@,
                OrphanAction::Quarantine => word == "quarantine"@,
                OrphanAction::Delete => word == "delete"@,
            }
            &&& orphan_action_in(value) is Err ==> word.len() > 0 && word != "keep"@ && word
                != "reconcile"@ && word != "quarantine"@ && word != "delete"@
                && orphan_action_in(value)->Err_0 == (ConfigErrorView::InvalidOrphanAction { word })
        }),
{
    lemma_action_words();
    if text::lowered(text::trimmed(value)).len() == 0 {
        assert(text::lowered(text::trimmed(value)) =~= ""@);
    }
}

/// A message starts with the name of the setting, and says what is wrong with it.
pub proof fn law_messages_say_what_is_wrong(name: Seq<char>, min: u64, max: u64, value: u64)
    ensures
        error_message(ConfigErrorView::NotAnInteger { name }) == name + " must be an integer"@,
        error_message(ConfigErrorView::NotABoolean { name }) == name + " must be a boolean"@,
        error_message(ConfigErrorView::OutOfRange { name, min, max, value }) == name
            + " must be between "@ + text::decimal_text(min as nat) + " and "@ + text::decimal_text(
            max as nat,
        ) + ", got "@ + text::decimal_text(value as nat),
        error_message(ConfigErrorView::InvalidOrphanAction { word: name }) == "invalid "@
            + "LRCSYNC_ORPHAN_ACTION"@ + "="@ + debug_text(name)
            + "; expected keep, reconcile, quarantine, or delete"@,
{
}

/// The setting that an error is about.
pub open spec fn setting_at_fault(e: ConfigErrorView) -> Seq<char> {
    match e {
        ConfigErrorView::NotAnInteger { name } => name,
        ConfigErrorView::OutOfRange { name, .. } => name,
        ConfigErrorView::NotABoolean { name } => name,
        ConfigErrorView::InvalidOrphanAction { .. } => ORPHAN_ACTION@,
    }
}

/// Of several wrong settings the first is reported, in the order of the fields.
pub proof fn law_first_wrong_setting_is_reported(vars: Seq<(String, String)>)
    requires
        config_in(vars) is Err,
    ensures
        ({
            let fault = setting_at_fault(config_in(vars)->Err_0);
            if !is_fine_number(vars, CONCURRENCY@, 1, 128) {
                fault == CONCURRENCY@
            } else if !is_fine_boolean(vars, CLEAN_FALLBACK@) {
                fault == CLEAN_FALLBACK@
            } else if !is_fine_number(vars, RETRY_NOT_FOUND_DAYS@, 1, 3650) {
                fault == RETRY_NOT_FOUND_DAYS@
            } else if !is_fine_number(vars, REQUEST_INTERVAL_MS@, 0, 60_000) {
                fault == REQUEST_INTERVAL_MS@
            } else if !is_fine_number(vars, REQUEST_TIMEOUT_SECONDS@, 0, u64::MAX as nat) {
                fault == REQUEST_TIMEOUT_SECONDS@
            } else {
                fault == ORPHAN_ACTION@ || fault == FOLLOW_SYMLINKS@ || fault
                    == FALLBACK_SCAN_SECONDS@
            }
        }),
{
}

} // verus!
