//! Taking over what an older program left.
use vstd::prelude::*;

use crate::cache;
use crate::cache::{Cache, CacheView, OpenOrCreateError, Timestamp};
use crate::config;
use crate::config::{Config, ConfigView};
use crate::diff::{Exclusion, ExclusionView};
use crate::facts;
use crate::facts::{Findings, Kind};
use crate::legacy_cache::LegacyCache;
use crate::legacy_config::LegacyConfig;
use crate::path;
use crate::path::FilePath;
use crate::report;
use crate::report::{Level, Message, MessageView};
use crate::sorted_set;
use crate::text;

verus! {

/// An old file is taken over where it is there and the new one is not.
pub open spec fn is_taken_over(
    found: Seq<(Seq<u8>, Kind)>,
    old_file: Seq<u8>,
    new_file: Seq<u8>,
) -> bool {
    facts::kind_at(found, old_file) == Kind::File && facts::kind_at(found, new_file) != Kind::File
}

/// Whether an old file is to be taken over.
pub fn needs_import(old_file: &FilePath, new_file: &FilePath, found: &Findings) -> (res: bool)
    ensures
        res == is_taken_over(found@, old_file@, new_file@),
{
    found.kind(old_file) == Kind::File && found.kind(new_file) != Kind::File
}

/// A configuration that was taken over.
#[derive(Debug)]
pub struct ImportedConfig {
    pub config: Config,
    /// What to say when the new file is written.
    pub messages: Vec<Message>,
}

/// What is said before an old configuration is read.
pub fn importing(old_file: &FilePath) -> (message: Message)
    ensures
        message@ == report::message(
            Level::Info,
            "Importing legacy config '"@ + text::lossy_text(old_file@) + "'..."@,
        ),
{
    Message {
        level: Level::Info,
        text: "Importing legacy config '".to_owned().concat(
            old_file.display().as_str(),
        ).concat("'..."),
    }
}

/// What is said when a configuration was taken over.
pub open spec fn import_ends(old_file: Seq<u8>, new_file: Seq<u8>) -> Seq<MessageView> {
    seq![
        report::message(
            Level::Info,
            "Create new config file '"@ + text::lossy_text(new_file) + "'"@,
        ),
        report::message(
            Level::Info,
            "You can delete '"@ + text::lossy_text(old_file) + "' now"@,
        ),
    ]
}

/// The configuration that takes the place of an old one.
pub fn import_legacy_config_file(
    old_file: &FilePath,
    new_file: &FilePath,
    legacy_config: &LegacyConfig,
) -> (imported: ImportedConfig)
    ensures
        imported.config@ == (ConfigView {
            search_directories: legacy_config.search_directories@,
            ignored_directories: legacy_config.ignored_directories@,
            whitelist_patterns: legacy_config.whitelist_patterns@,
            threads: config::default_config().threads,
            debounce_duration: config::default_config().debounce_duration,
        }),
        sorted_set::item_views(imported.messages@) == import_ends(old_file@, new_file@),
{
    let mut messages: Vec<Message> = Vec::new();
    report::tell(
        &mut messages,
        Level::Info,
        "Create new config file '".to_owned().concat(new_file.display().as_str()).concat("'"),
    );
    report::tell(
        &mut messages,
        Level::Info,
        "You can delete '".to_owned().concat(old_file.display().as_str()).concat("' now"),
    );
    assert(sorted_set::item_views(messages@) =~= import_ends(old_file@, new_file@));
    ImportedConfig { config: Config::from_legacy(legacy_config), messages }
}

/// The paths as exclusions of which no repository is known.
pub open spec fn orphans(paths: Seq<Seq<u8>>) -> Seq<ExclusionView> {
    paths.map_values(|p: Seq<u8>| ExclusionView { path: p, repository: None })
}

/// The cache that takes the place of an old one, if one is to be taken over.
pub fn import_legacy_cache_file(
    old_file: &FilePath,
    new_file: &FilePath,
    found: &Findings,
    legacy_cache: &LegacyCache,
    now: Timestamp,
) -> (res: Result<Option<Cache>, OpenOrCreateError>)
    ensures
        if is_taken_over(found@, old_file@, new_file@) {
            match res {
                Ok(Some(cache)) => path::path_parent(new_file@) is Some && cache@ == (CacheView {
                    rows: orphans(sorted_set::item_views(legacy_cache.paths@)),
                    last_update: Some(now),
                    version: cache::LATEST_VERSION,
                }),
                Ok(None) => false,
                Err(error) => path::path_parent(new_file@) is None && error
                    is NoParentDirectory,
            }
        } else {
            res is Ok && res->Ok_0 is None
        },
{
    if !needs_import(old_file, new_file, found) {
        return Ok(None);
    }
    let mut cache = match Cache::create(new_file) {
        Ok(cache) => cache,
        Err(error) => {
            return Err(error);
        },
    };
    let ghost all = orphans(sorted_set::item_views(legacy_cache.paths@));
    let mut rows: Vec<Exclusion> = Vec::new();
    let mut i: usize = 0;
    while i < legacy_cache.paths.len()
        invariant
            i <= legacy_cache.paths@.len(),
            rows@.len() == i,
            all == orphans(sorted_set::item_views(legacy_cache.paths@)),
            forall|j: int| 0 <= j < i ==> (#[trigger] rows@[j])@ == all[j],
        decreases legacy_cache.paths@.len() - i,
    {
        rows.push(Exclusion::orphan(legacy_cache.paths[i].clone()));
        i = i + 1;
    }
    assert(sorted_set::item_views(rows@) =~= all);
    cache.reset(rows, now);
    Ok(Some(cache))
}

} // verus!
