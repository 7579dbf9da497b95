//! Settings: where downloads go, how searches behave, and the credential
//! references of the record pools.

use vstd::prelude::*;

verus! {

/// What a search does with its results.
#[derive(Debug, Clone, Copy, PartialEq, Eq, Structural)]
pub enum SearchMode {
    BestMatch,
    ShowResults,
}

/// Which sources a search tries first.
#[derive(Debug, Clone, Copy, PartialEq, Eq, Structural)]
pub enum SearchPriority {
    Pools,
    Youtube,
}

/// References to a pool account's username and password.
#[derive(Debug, Clone)]
pub struct PoolCredentialRefs {
    pub username_ref: String,
    pub password_ref: String,
}

impl PoolCredentialRefs {
    /// Both references are empty.
    pub open spec fn is_empty(&self) -> bool {
        self.username_ref@.len() == 0 && self.password_ref@.len() == 0
    }
}

impl Default for PoolCredentialRefs {
    fn default() -> (r: Self)
        ensures
            r.is_empty(),
    {
        PoolCredentialRefs { username_ref: String::new(), password_ref: String::new() }
    }
}

/// Credential references of every pool.
#[derive(Debug, Clone)]
pub struct PoolsConfig {
    pub bpmsupreme: PoolCredentialRefs,
    pub clubkillers: PoolCredentialRefs,
    pub livedjservice: PoolCredentialRefs,
    pub qobuz: PoolCredentialRefs,
}

impl PoolsConfig {
    /// No pool has a reference yet.
    pub open spec fn is_empty(&self) -> bool {
        &&& self.bpmsupreme.is_empty()
        &&& self.clubkillers.is_empty()
        &&& self.livedjservice.is_empty()
        &&& self.qobuz.is_empty()
    }
}

impl Default for PoolsConfig {
    fn default() -> (r: Self)
        ensures
            r.is_empty(),
    {
        PoolsConfig {
            bpmsupreme: PoolCredentialRefs::default(),
            clubkillers: PoolCredentialRefs::default(),
            livedjservice: PoolCredentialRefs::default(),
            qobuz: PoolCredentialRefs::default(),
        }
    }
}

/// All settings.
#[derive(Debug, Clone)]
pub struct Config {
    pub output_dir: String,
    pub auto_download: bool,
    pub search_mode: SearchMode,
    pub search_priority: SearchPriority,
    pub pools: PoolsConfig,
    /// Lower end of the tempo range that detected tempos are folded into.
    pub bpm_range_min: Option<u32>,
    /// Upper end of that range.
    pub bpm_range_max: Option<u32>,
}

impl Config {
    /// The default settings with downloads going to `output_dir`: downloads
    /// start on drop, searches take the best match from the pools first, no
    /// pool has credentials, and detected tempos are kept as they are (no
    /// tempo range).
    pub fn with_output_dir(output_dir: String) -> (r: Config)
        ensures
            r.output_dir@ == output_dir@,
            r.auto_download,
            r.search_mode == SearchMode::BestMatch,
            r.search_priority == SearchPriority::Pools,
            r.pools.is_empty(),
            r.bpm_range_min is None,
            r.bpm_range_max is None,
    {
        Config {
            output_dir,
            auto_download: true,
            search_mode: SearchMode::BestMatch,
            search_priority: SearchPriority::Pools,
            pools: PoolsConfig::default(),
            bpm_range_min: None,
            bpm_range_max: None,
        }
    }
}

} // verus!
