//! A vault: a collection of notes under one directory.
//!
//! The vault decides which files match a note name and where a daily
//! note lives; walking the directory and opening files is I/O and stays
//! with the caller, who hands in the entries it listed and performs the
//! plans handed back.

use vstd::prelude::*;
use vstd::string::StringExecFns;
use crate::casefold::lower_of;
use crate::casefold::lowercase;
use crate::date::Date;
use crate::note::NoteError;

verus! {

/// What can go wrong when working with a vault.
#[derive(Debug)]
pub enum VaultError {
    /// Multiple daily notes of the same name were found.
    DuplicateDailyNote,
    /// A vault entry could not be listed.
    ListEntry { cause: String },
    /// A note could not be opened.
    OpenNote { source: NoteError },
    /// The vault path does not exist on disk.
    VaultDoesNotExist,
}

/// Optional per-vault configuration.
#[derive(Clone, Debug, Default, PartialEq, Eq)]
pub struct Config {
    /// The directory holding daily notes, relative to the vault root.
    pub daily: Option<String>,
    /// The directory holding templates, relative to the vault root.
    pub templates: Option<String>,
}

/// A file found when listing the vault: its bare file name, and its
/// path.
pub struct VaultEntry {
    /// The entry's file name, extension included.
    pub file_name: String,
    /// The entry's full path.
    pub path: String,
}

/// The view of an optional string.
pub open spec fn opt_string_view(o: Option<String>) -> Option<Seq<char>> {
    match o {
        None => None,
        Some(s) => Some(s@),
    }
}

/// True when a file name matches a note name: it is `name.md`, exactly
/// or up to case.
pub open spec fn spec_entry_matches(entry: Seq<char>, name: Seq<char>) -> bool {
    entry == name + ".md"@ || lower_of(entry) == lower_of(name) + ".md"@
}

/// The paths of the entries whose file names match `name`, in listing
/// order.
pub open spec fn matching_paths(s: Seq<VaultEntry>, name: Seq<char>) -> Seq<Seq<char>>
    decreases s.len(),
{
    if s.len() == 0 {
        Seq::empty()
    } else if spec_entry_matches(s.last().file_name@, name) {
        matching_paths(s.drop_last(), name).push(s.last().path@)
    } else {
        matching_paths(s.drop_last(), name)
    }
}

/// How to find a daily note: open it at a known path, or search the
/// vault for a name.
pub enum DailyPlan {
    /// Open the note directly at `path`.
    Direct { path: String },
    /// Search the vault for a note called `name`.
    Search { name: String },
}

/// Struct for interacting with a vault of notes.
#[derive(Debug, Default, PartialEq, Eq)]
pub struct Vault {
    config: Config,
    path: String,
}

impl Vault {
    /// The vault's root path.
    pub closed spec fn spec_path(&self) -> Seq<char> {
        self.path@
    }

    /// The configured dailies directory.
    pub closed spec fn spec_daily_dir(&self) -> Option<Seq<char>> {
        opt_string_view(self.config.daily)
    }

    /// The configured templates directory.
    pub closed spec fn spec_templates_dir(&self) -> Option<Seq<char>> {
        opt_string_view(self.config.templates)
    }

    /// The vault's root path on disk.
    pub fn path(&self) -> (p: &String)
        ensures
            p@ == self.spec_path(),
    {
        &self.path
    }

    /// Opens a vault rooted at `path`.
    ///
    /// Opening a vault touches no file in it; the caller reports with
    /// `present` whether the path exists on disk, and a missing path is
    /// the error `VaultDoesNotExist`.
    pub fn open(path: String, config: Config, present: bool) -> (r: Result<Vault, VaultError>)
        ensures
            match r {
                Ok(v) => {
                    &&& present
                    &&& v.spec_path() == path@
                    &&& v.spec_daily_dir() == opt_string_view(config.daily)
                    &&& v.spec_templates_dir() == opt_string_view(config.templates)
                },
                Err(e) => !present && e is VaultDoesNotExist,
            },
    {
        if present {
            Ok(Vault { config, path })
        } else {
            Err(VaultError::VaultDoesNotExist)
        }
    }

    /// The path of a note given relative to the root of the vault.
    pub fn note_path(&self, rel: &str) -> (p: String)
        ensures
            p@ == self.spec_path() + "/"@ + rel@,
    {
        let mut p = self.path.clone();
        p.append("/");
        p.append(rel);
        p
    }

    /// Looks up a note by name among the vault's listed entries,
    /// returning the paths of the entries whose file names match it.
    ///
    /// The caller lists the vault's files and hands the entries in; a
    /// file matches when it is called `name.md`, exactly or up to case.
    pub fn lookup(&self, entries: &Vec<VaultEntry>, note_name: &str) -> (r: Vec<String>)
        ensures
            r.deep_view() == matching_paths(entries@, note_name@),
    {
        let mut exact = String::from_str(note_name);
        exact.append(".md");
        let mut folded = lowercase(note_name);
        folded.append(".md");
        proof {
            reveal_strlit(".md");
        }
        let mut r: Vec<String> = Vec::new();
        let n = entries.len();
        let mut i: usize = 0;
        while i < n
            invariant
                i <= n,
                n == entries@.len(),
                exact@ == note_name@ + ".md"@,
                folded@ == lower_of(note_name@) + ".md"@,
                r.deep_view() == matching_paths(entries@.subrange(0, i as int), note_name@),
            decreases n - i,
        {
            let entry_lower = lowercase(entries[i].file_name.as_str());
            let hit = entries[i].file_name == exact || entry_lower == folded;
            proof {
                assert(hit == spec_entry_matches(entries@[i as int].file_name@, note_name@));
            }
            if hit {
                r.push(entries[i].path.clone());
            }
            proof {
                assert(entries@.subrange(0, i as int + 1).drop_last() =~= entries@.subrange(
                    0,
                    i as int,
                ));
                assert(entries@.subrange(0, i as int + 1).last() == entries@[i as int]);
            }
            i = i + 1;
        }
        proof {
            assert(entries@.subrange(0, n as int) =~= entries@);
        }
        r
    }

    /// The plan for finding the daily note of a date: open it directly
    /// under the configured dailies directory, or, with none configured,
    /// search the whole vault for its name.
    pub fn daily_plan(&self, date: &Date) -> (r: DailyPlan)
        requires
            date.valid(),
        ensures
            match r {
                DailyPlan::Direct { path } => {
                    &&& self.spec_daily_dir() is Some
                    &&& path@ == self.spec_path() + "/"@ + self.spec_daily_dir().unwrap() + "/"@
                        + date.iso_view() + ".md"@
                },
                DailyPlan::Search { name } => self.spec_daily_dir() is None && name@
                    == date.iso_view(),
            },
    {
        let stamp = date.iso_string();
        match &self.config.daily {
            Some(dir) => {
                let mut rel = dir.clone();
                rel.append("/");
                rel.append(stamp.as_str());
                rel.append(".md");
                DailyPlan::Direct { path: self.note_path(rel.as_str()) }
            },
            None => DailyPlan::Search { name: stamp },
        }
    }

    /// Picks the daily note among the paths a search returned: none,
    /// the single hit, or the error for duplicates.
    pub fn daily_pick(hits: &Vec<String>) -> (r: Result<Option<String>, VaultError>)
        ensures
            match r {
                Ok(Some(p)) => hits@.len() == 1 && p@ == hits@[0]@,
                Ok(None) => hits@.len() == 0,
                Err(e) => hits@.len() > 1 && e is DuplicateDailyNote,
            },
    {
        if hits.len() > 1 {
            Err(VaultError::DuplicateDailyNote)
        } else if hits.len() == 1 {
            Ok(Some(hits[0].clone()))
        } else {
            Ok(None)
        }
    }
}

} // verus!
