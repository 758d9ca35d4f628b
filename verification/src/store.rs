//! The settings as they are kept in memory and on disk.
use vstd::prelude::*;

use crate::codec::settings_file_from;
use crate::json::Json;
use crate::settings::{SETTINGS_VERSION, SettingsFile, SettingsView, default_settings};

verus! {

/// What was found where the settings are kept.
#[derive(Debug, PartialEq)]
pub enum Disk {
    /// There is no file.
    Missing,
    /// The file could not be read.
    Unreadable,
    /// The file does not hold settings.
    Malformed,
    /// The file holds these settings.
    Holds(SettingsFile),
}

impl Disk {
    /// Whether the settings that it holds are sound.
    pub open spec fn wf(self) -> bool {
        self matches Disk::Holds(f) ==> f.wf()
    }

    /// The settings that it holds, where they are in a form that is understood.
    pub open spec fn understood(self) -> Option<SettingsView> {
        match self {
            Disk::Holds(f) => if f.version == SETTINGS_VERSION {
                Some(f@)
            } else {
                None
            },
            _ => None,
        }
    }
}

/// What a document from disk holds; hooks that name no dialect are in
/// `hook_dialect`.
pub fn document_holds(doc: &Json, hook_dialect: &str) -> (r: Disk)
    ensures
        r.wf(),
        match settings_file_from(doc@, hook_dialect@) {
            Some(v) => r is Holds && r->0@ == v,
            None => r is Malformed,
        },
{
    match SettingsFile::from_json(doc, hook_dialect) {
        Some(f) => Disk::Holds(f),
        None => Disk::Malformed,
    }
}

/// The settings in memory, with the time of the file that they stand for.
#[derive(Debug, PartialEq)]
pub struct SettingsStore {
    pub path: String,
    pub file: SettingsFile,
    pub loaded_mtime: Option<u128>,
}

impl SettingsStore {
    pub open spec fn wf(self) -> bool {
        self.file.wf()
    }

    /// Opens the settings. What is on disk counts where it is understood; else
    /// the settings are those from before anything was set. The second result
    /// says whether the file is to be put aside: it was there, and could not be
    /// read or is not understood.
    pub fn open(path: &str, disk: Disk, mtime: Option<u128>) -> (r: (SettingsStore, bool))
        requires
            disk.wf(),
        ensures
            r.0.wf(),
            r.0.path@ == path@,
            r.0.loaded_mtime == mtime,
            r.0.file@ == (match disk.understood() {
                Some(s) => s,
                None => default_settings(),
            }),
            r.1 == (!(disk is Missing) && disk.understood() is None),
    {
        let mut aside = false;
        let file = match disk {
            Disk::Missing => SettingsFile::default(),
            Disk::Unreadable => {
                aside = true;
                SettingsFile::default()
            },
            Disk::Malformed => {
                aside = true;
                SettingsFile::default()
            },
            Disk::Holds(f) => if f.version == SETTINGS_VERSION {
                f
            } else {
                aside = true;
                SettingsFile::default()
            },
        };
        (SettingsStore { path: path.to_owned(), file, loaded_mtime: mtime }, aside)
    }

    /// Whether the file has another time than the one in memory stands for.
    pub fn is_stale(&self, mtime: Option<u128>) -> (r: bool)
        ensures
            r == (mtime is Some && mtime != self.loaded_mtime),
    {
        match (mtime, self.loaded_mtime) {
            (Some(a), Some(b)) => a != b,
            (Some(_), None) => true,
            (None, _) => false,
        }
    }

    /// Takes in what someone else wrote. A file that is not understood, such as
    /// one that is half written, leaves the settings as they are.
    pub fn reload_if_changed(&mut self, mtime: Option<u128>, disk: Disk) -> (r: bool)
        requires
            old(self).wf(),
            disk.wf(),
        ensures
            final(self).wf(),
            final(self).path@ == old(self).path@,
            r == (mtime is Some && mtime != old(self).loaded_mtime && disk.understood() is Some),
            if r {
                final(self).file@ == disk.understood()->0 && final(self).loaded_mtime == mtime
            } else {
                final(self).file@ == old(self).file@ && final(self).loaded_mtime == old(
                    self,
                ).loaded_mtime
            },
    {
        if !self.is_stale(mtime) {
            return false;
        }
        match disk {
            Disk::Holds(f) => {
                if f.version == SETTINGS_VERSION {
                    self.file = f;
                    self.loaded_mtime = mtime;
                    true
                } else {
                    false
                }
            },
            _ => false,
        }
    }

    /// The settings, after what someone else wrote was taken in.
    pub fn read(&mut self, mtime: Option<u128>, disk: Disk) -> (r: SettingsFile)
        requires
            old(self).wf(),
            disk.wf(),
        ensures
            final(self).wf(),
            final(self).path@ == old(self).path@,
            r.wf(),
            r@ == final(self).file@,
            final(self).file@ == (if mtime is Some && mtime != old(self).loaded_mtime
                && disk.understood() is Some {
                disk.understood()->0
            } else {
                old(self).file@
            }),
            final(self).loaded_mtime == (if mtime is Some && mtime != old(self).loaded_mtime
                && disk.understood() is Some {
                mtime
            } else {
                old(self).loaded_mtime
            }),
    {
        self.reload_if_changed(mtime, disk);
        self.file.copy()
    }

    /// Ends a change: the changed settings count where they were written to
    /// disk; else the change is void as a whole.
    pub fn commit(&mut self, draft: SettingsFile, written: bool, mtime: Option<u128>)
        requires
            old(self).wf(),
            draft.wf(),
        ensures
            final(self).wf(),
            final(self).path@ == old(self).path@,
            if written {
                final(self).file@ == draft@ && final(self).loaded_mtime == mtime
            } else {
                final(self).file@ == old(self).file@ && final(self).loaded_mtime == old(
                    self,
                ).loaded_mtime
            },
    {
        if written {
            self.file = draft;
            self.loaded_mtime = mtime;
        }
    }

    /// Where the settings are kept.
    pub fn path(&self) -> (r: &str)
        ensures
            r@ == self.path@,
    {
        self.path.as_str()
    }
}

/// Settings are understood exactly where the file holds them in the version that is known;
/// then they are what it holds.
pub proof fn law_known_version_is_understood(disk: Disk)
    ensures
        disk.understood() is Some <==> (disk matches Disk::Holds(f) && f.version == 1),
        disk matches Disk::Holds(f) ==> (f.version == 1 ==> disk.understood() == Some(f@)),
{
}

} // verus!
