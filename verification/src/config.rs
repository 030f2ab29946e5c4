//! User configuration: favorite filters, keyboard shortcuts, per-format
//! settings, and the schema-version rules that decide how a configuration
//! read from disk is taken up.

use crate::chars::{chars_eq, str_chars};
use crate::input::keyboard::ShortcutAction;
use vstd::prelude::*;

verus! {

/// DLT timestamp source configuration
#[derive(Clone, Copy, Debug, PartialEq, Eq, Structural)]
pub enum DltTimestampSource {
    /// Use storage header timestamp (wall-clock time)
    StorageTime,
    /// Use inferred monotonic clock (boot time + header timestamp, more
    /// precise in limited timespans)
    InferredMonotonic,
}

impl Default for DltTimestampSource {
    fn default() -> (r: Self)
        ensures
            r == DltTimestampSource::StorageTime,
    {
        DltTimestampSource::StorageTime
    }
}

/// Current schema version. Bump this whenever the config format changes in
/// a backwards-incompatible way. Old binaries that don't know this version
/// fall back to defaults on load rather than silently corrupting the file.
pub const SCHEMA_VERSION: u32 = 1;

/// Per-format settings that persist across sessions (the only format with
/// a setting is DLT).
#[derive(Clone, Copy, Debug, PartialEq, Eq, Structural)]
pub struct GlobalFileConfig {
    pub dlt: DltTimestampSource,
}

impl Default for GlobalFileConfig {
    fn default() -> (r: Self)
        ensures
            r.dlt == DltTimestampSource::StorageTime,
    {
        GlobalFileConfig { dlt: DltTimestampSource::StorageTime }
    }
}

/// A favorite filter that can be quickly added to any log
pub struct FavoriteFilter {
    pub search_text: String,
    pub case_sensitive: bool,
    pub name: String,
}

impl FavoriteFilter {
    /// Create a new favorite with the given parameters, using `search_text`
    /// as the default name
    pub fn new(search_text: String, case_sensitive: bool) -> (r: Self)
        ensures
            r.search_text@ == search_text@,
            r.case_sensitive == case_sensitive,
            r.name@ == search_text@,
    {
        let name = search_text.clone();
        FavoriteFilter { search_text, case_sensitive, name }
    }

    /// The name shown for this favorite: its name if set, otherwise its
    /// search text.
    pub open spec fn shown_name(&self) -> Seq<char> {
        if self.name@.len() == 0 {
            self.search_text@
        } else {
            self.name@
        }
    }

    /// Get the display name for this favorite (returns name if set,
    /// otherwise `search_text`)
    pub fn display_name(&self) -> (r: &str)
        ensures
            r@ == self.shown_name(),
    {
        if str_chars(self.name.as_str()).len() == 0 {
            self.search_text.as_str()
        } else {
            self.name.as_str()
        }
    }

    /// Whether a search (its text and case sensitivity) is this favorite.
    pub fn matches(&self, search_text: &str, case_sensitive: bool) -> (r: bool)
        ensures
            r == (self.search_text@ == search_text@ && self.case_sensitive == case_sensitive),
    {
        let mine = str_chars(self.search_text.as_str());
        let theirs = str_chars(search_text);
        chars_eq(mine.as_slice(), theirs.as_slice()) && self.case_sensitive == case_sensitive
    }
}

/// Global user configuration stored in the config directory.
pub struct GlobalConfig {
    /// Schema version of the configuration.
    pub schema_version: u32,
    /// Keyboard shortcuts: each action with its key sequence.
    pub shortcuts: Vec<(ShortcutAction, String)>,
    /// Favorite filters that appear in all sessions
    pub favorite_filters: Vec<FavoriteFilter>,
    /// Use bright/light theme instead of dark
    pub bright_mode: bool,
    /// Last directory used for opening log files
    pub last_log_directory: Option<String>,
    /// Last directory used for filter files (import/export)
    pub last_filters_directory: Option<String>,
    /// Per-format file type configuration
    pub file_config: GlobalFileConfig,
    /// Show bookmarks as markers in the timeline/histogram
    pub show_bookmarks_in_timeline: bool,
    /// Set when the file on disk was written by a newer version: such a
    /// configuration is never written back.
    pub read_only: bool,
}

/// The configuration has every default setting.
pub open spec fn is_default_config(c: GlobalConfig) -> bool {
    &&& c.schema_version == SCHEMA_VERSION
    &&& c.shortcuts@.len() == 0
    &&& c.favorite_filters@.len() == 0
    &&& !c.bright_mode
    &&& c.last_log_directory is None
    &&& c.last_filters_directory is None
    &&& c.file_config.dlt == DltTimestampSource::StorageTime
    &&& !c.show_bookmarks_in_timeline
}

impl Default for GlobalConfig {
    fn default() -> (r: Self)
        ensures
            is_default_config(r),
            !r.read_only,
    {
        GlobalConfig {
            schema_version: SCHEMA_VERSION,
            shortcuts: Vec::new(),
            favorite_filters: Vec::new(),
            bright_mode: false,
            last_log_directory: None,
            last_filters_directory: None,
            file_config: GlobalFileConfig { dlt: DltTimestampSource::StorageTime },
            show_bookmarks_in_timeline: false,
            read_only: false,
        }
    }
}

impl GlobalConfig {
    /// Takes up a configuration read from disk. `file_version` is the
    /// schema version the file declares (0 when it declares none) and
    /// `parsed` the configuration it holds, when it could be read.
    ///
    /// - a newer version than this program's: defaults, read-only, so the
    ///   newer file is never overwritten;
    /// - unreadable: defaults;
    /// - an older version: its settings, migrated to the current version;
    /// - the current version: as read.
    pub fn settle_loaded(file_version: u32, parsed: Option<GlobalConfig>) -> (r: GlobalConfig)
        ensures
            file_version > SCHEMA_VERSION ==> is_default_config(r) && r.read_only,
            file_version <= SCHEMA_VERSION && parsed is None ==> is_default_config(r)
                && !r.read_only,
            file_version <= SCHEMA_VERSION ==> (parsed matches Some(c) ==> {
                &&& r.schema_version == if c.schema_version < SCHEMA_VERSION {
                    SCHEMA_VERSION
                } else {
                    c.schema_version
                }
                &&& r.shortcuts@ == c.shortcuts@
                &&& r.favorite_filters@ == c.favorite_filters@
                &&& r.bright_mode == c.bright_mode
                &&& r.last_log_directory == c.last_log_directory
                &&& r.last_filters_directory == c.last_filters_directory
                &&& r.file_config == c.file_config
                &&& r.show_bookmarks_in_timeline == c.show_bookmarks_in_timeline
                &&& r.read_only == c.read_only
            }),
    {
        if file_version > SCHEMA_VERSION {
            let mut config = GlobalConfig::default();
            config.read_only = true;
            return config;
        }
        match parsed {
            None => GlobalConfig::default(),
            Some(mut config) => {
                if config.schema_version < SCHEMA_VERSION {
                    config.schema_version = SCHEMA_VERSION;
                }
                config
            },
        }
    }

    /// Whether an update of the configuration is written back to disk.
    pub fn persists(&self) -> (r: bool)
        ensures
            r == !self.read_only,
    {
        !self.read_only
    }
}

} // verus!
