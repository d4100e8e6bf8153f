//! The install/download state of an item, inferred from its manifest's state
//! flags, its byte counters and whether a staging directory exists for it.

use vstd::prelude::*;
use crate::manifest::{parse_steam_manifest_download_progress, u64_field_spec, or_else};

verus! {

pub const STEAM_APP_STATE_UPDATE_REQUIRED: u64 = 0x2;
pub const STEAM_APP_STATE_FULLY_INSTALLED: u64 = 0x4;
pub const STEAM_APP_STATE_UPDATE_RUNNING: u64 = 0x100;
pub const STEAM_APP_STATE_UPDATE_PAUSED: u64 = 0x200;
pub const STEAM_APP_STATE_UPDATE_STARTED: u64 = 0x400;
pub const STEAM_APP_STATE_VALIDATING: u64 = 0x20000;
pub const STEAM_APP_STATE_ADDING_FILES: u64 = 0x40000;
pub const STEAM_APP_STATE_PREALLOCATING: u64 = 0x80000;
pub const STEAM_APP_STATE_DOWNLOADING: u64 = 0x100000;
pub const STEAM_APP_STATE_STAGING: u64 = 0x200000;
pub const STEAM_APP_STATE_COMMITTING: u64 = 0x400000;

/// The state of an item that is mid-operation.
#[derive(Debug, Clone, Copy, PartialEq, Eq, Structural)]
pub enum SteamDownloadState {
    Paused,
    Preallocating,
    Downloading,
    Updating,
    Staging,
    Installing,
    Verifying,
    Queued,
}

impl SteamDownloadState {
    /// The state's label.
    pub fn as_str(&self) -> (r: &'static str)
        ensures
            r@ == self.label(),
    {
        match self {
            SteamDownloadState::Paused => "Paused",
            SteamDownloadState::Preallocating => "Preallocating",
            SteamDownloadState::Downloading => "Downloading",
            SteamDownloadState::Updating => "Updating",
            SteamDownloadState::Staging => "Staging",
            SteamDownloadState::Installing => "Installing",
            SteamDownloadState::Verifying => "Verifying",
            SteamDownloadState::Queued => "Queued",
        }
    }

    pub open spec fn label(&self) -> Seq<char> {
        match self {
            SteamDownloadState::Paused => "Paused"@,
            SteamDownloadState::Preallocating => "Preallocating"@,
            SteamDownloadState::Downloading => "Downloading"@,
            SteamDownloadState::Updating => "Updating"@,
            SteamDownloadState::Staging => "Staging"@,
            SteamDownloadState::Installing => "Installing"@,
            SteamDownloadState::Verifying => "Verifying"@,
            SteamDownloadState::Queued => "Queued"@,
        }
    }
}

pub open spec fn has_flag(flags: u64, flag: u64) -> bool {
    flags & flag != 0
}

/// The state that the flags and signals give, first match winning: paused,
/// preallocating, downloading, a running or started update (downloading
/// where there is progress or a staging directory, else updating), staging,
/// committing or adding files (installing), validating (verifying); then
/// queued where there is progress or a staging directory, or where an update
/// is required and the item is not fully installed; else none.
pub open spec fn download_state_spec(flags: u64, has_progress: bool, has_dir: bool) -> Option<
    SteamDownloadState,
> {
    if has_flag(flags, STEAM_APP_STATE_UPDATE_PAUSED) {
        Some(SteamDownloadState::Paused)
    } else if has_flag(flags, STEAM_APP_STATE_PREALLOCATING) {
        Some(SteamDownloadState::Preallocating)
    } else if has_flag(flags, STEAM_APP_STATE_DOWNLOADING) {
        Some(SteamDownloadState::Downloading)
    } else if has_flag(flags, STEAM_APP_STATE_UPDATE_RUNNING) || has_flag(
        flags,
        STEAM_APP_STATE_UPDATE_STARTED,
    ) {
        if has_progress || has_dir {
            Some(SteamDownloadState::Downloading)
        } else {
            Some(SteamDownloadState::Updating)
        }
    } else if has_flag(flags, STEAM_APP_STATE_STAGING) {
        Some(SteamDownloadState::Staging)
    } else if has_flag(flags, STEAM_APP_STATE_COMMITTING) || has_flag(
        flags,
        STEAM_APP_STATE_ADDING_FILES,
    ) {
        Some(SteamDownloadState::Installing)
    } else if has_flag(flags, STEAM_APP_STATE_VALIDATING) {
        Some(SteamDownloadState::Verifying)
    } else if has_progress || has_dir {
        Some(SteamDownloadState::Queued)
    } else if has_flag(flags, STEAM_APP_STATE_UPDATE_REQUIRED) && !has_flag(
        flags,
        STEAM_APP_STATE_FULLY_INSTALLED,
    ) {
        Some(SteamDownloadState::Queued)
    } else {
        None
    }
}

/// Infers the state of an item from its flags, whether it has progress
/// left, and whether a staging directory exists for it.
pub fn infer_steam_download_state(
    state_flags: u64,
    has_progress: bool,
    has_active_download_directory: bool,
) -> (r: Option<SteamDownloadState>)
    ensures
        r == download_state_spec(state_flags, has_progress, has_active_download_directory),
{
    if state_flags & STEAM_APP_STATE_UPDATE_PAUSED != 0 {
        return Some(SteamDownloadState::Paused);
    }
    if state_flags & STEAM_APP_STATE_PREALLOCATING != 0 {
        return Some(SteamDownloadState::Preallocating);
    }
    if state_flags & STEAM_APP_STATE_DOWNLOADING != 0 {
        return Some(SteamDownloadState::Downloading);
    }
    if state_flags & STEAM_APP_STATE_UPDATE_RUNNING != 0 || state_flags
        & STEAM_APP_STATE_UPDATE_STARTED != 0 {
        if has_progress || has_active_download_directory {
            return Some(SteamDownloadState::Downloading);
        }
        return Some(SteamDownloadState::Updating);
    }
    if state_flags & STEAM_APP_STATE_STAGING != 0 {
        return Some(SteamDownloadState::Staging);
    }
    if state_flags & STEAM_APP_STATE_COMMITTING != 0 || state_flags & STEAM_APP_STATE_ADDING_FILES
        != 0 {
        return Some(SteamDownloadState::Installing);
    }
    if state_flags & STEAM_APP_STATE_VALIDATING != 0 {
        return Some(SteamDownloadState::Verifying);
    }
    if has_progress || has_active_download_directory {
        return Some(SteamDownloadState::Queued);
    }
    if state_flags & STEAM_APP_STATE_UPDATE_REQUIRED != 0 && state_flags
        & STEAM_APP_STATE_FULLY_INSTALLED == 0 {
        return Some(SteamDownloadState::Queued);
    }
    None
}

/// The byte counters as reported: a zero total counts as absent, and where a
/// total is known the downloaded count defaults to zero.
pub struct DownloadCounters {
    pub bytes_downloaded: Option<u64>,
    pub bytes_total: Option<u64>,
}

pub open spec fn counters_spec(downloaded: Option<u64>, total: Option<u64>) -> (Option<u64>, Option<u64>) {
    let t = match total {
        Some(v) => if v > 0 {
            Some(v)
        } else {
            None
        },
        None => None,
    };
    let d = match downloaded {
        Some(v) => Some(v),
        None => if t is Some {
            Some(0u64)
        } else {
            None
        },
    };
    (d, t)
}

pub fn download_counters(downloaded: Option<u64>, total: Option<u64>) -> (r: DownloadCounters)
    ensures
        (r.bytes_downloaded, r.bytes_total) == counters_spec(downloaded, total),
{
    let bytes_total = match total {
        Some(v) => if v > 0 {
            Some(v)
        } else {
            None
        },
        None => None,
    };
    let bytes_downloaded = match downloaded {
        Some(v) => Some(v),
        None => if bytes_total.is_some() {
            Some(0)
        } else {
            None
        },
    };
    DownloadCounters { bytes_downloaded, bytes_total }
}

/// Whether some bytes are still to come: both counters known and the
/// downloaded count below the total.
pub open spec fn has_progress_spec(downloaded: Option<u64>, total: Option<u64>) -> bool {
    match (downloaded, total) {
        (Some(d), Some(t)) => d < t,
        _ => false,
    }
}

pub fn has_download_progress(downloaded: Option<u64>, total: Option<u64>) -> (r: bool)
    ensures
        r == has_progress_spec(downloaded, total),
{
    match (downloaded, total) {
        (Some(d), Some(t)) => d < t,
        _ => false,
    }
}

/// The progress as a fraction `(done, total)` with `done` clamped to the
/// total; none unless both counters are known and the total is positive.
/// The percentage is `100 * done / total`.
pub open spec fn progress_spec(downloaded: Option<u64>, total: Option<u64>) -> Option<(u64, u64)> {
    match (downloaded, total) {
        (Some(d), Some(t)) => if t > 0 {
            Some((if d < t {
                d
            } else {
                t
            }, t))
        } else {
            None
        },
        _ => None,
    }
}

pub fn download_progress_fraction(downloaded: Option<u64>, total: Option<u64>) -> (r: Option<
    (u64, u64),
>)
    ensures
        r == progress_spec(downloaded, total),
        r matches Some(p) ==> p.0 <= p.1 && p.1 > 0,
{
    match (downloaded, total) {
        (Some(d), Some(t)) => if t > 0 {
            Some((if d < t {
                d
            } else {
                t
            }, t))
        } else {
            None
        },
        _ => None,
    }
}

/// What the download report holds for one item.
pub struct SteamDownloadStatus {
    pub state: SteamDownloadState,
    pub bytes_downloaded: Option<u64>,
    pub bytes_total: Option<u64>,
    pub progress: Option<(u64, u64)>,
}

/// The report entry for an item, from its manifest text and whether a
/// staging directory exists for it; none where it is not mid-operation.
pub open spec fn download_status_spec(contents: Seq<char>, has_dir: bool) -> Option<
    (SteamDownloadState, Option<u64>, Option<u64>, Option<(u64, u64)>),
> {
    let flags = match u64_field_spec(contents, "StateFlags"@) {
        Some(f) => f,
        None => 0,
    };
    let c = counters_spec(
        or_else(
            u64_field_spec(contents, "BytesDownloaded"@),
            u64_field_spec(contents, "BytesDownloadedOnCurrentRun"@),
        ),
        or_else(
            u64_field_spec(contents, "BytesToDownload"@),
            u64_field_spec(contents, "TotalDownloaded"@),
        ),
    );
    match download_state_spec(flags, has_progress_spec(c.0, c.1), has_dir) {
        Some(s) => Some((s, c.0, c.1, progress_spec(c.0, c.1))),
        None => None,
    }
}

/// Reads a manifest and infers the item's download report entry.
pub fn steam_download_status(manifest_contents: &str, has_active_download_directory: bool) -> (r:
    Option<SteamDownloadStatus>)
    ensures
        match download_status_spec(manifest_contents@, has_active_download_directory) {
            Some(e) => r matches Some(s) && s.state == e.0 && s.bytes_downloaded == e.1
                && s.bytes_total == e.2 && s.progress == e.3,
            None => r is None,
        },
{
    let snapshot = parse_steam_manifest_download_progress(manifest_contents);
    let counters = download_counters(snapshot.bytes_downloaded, snapshot.bytes_total);
    let has_progress = has_download_progress(counters.bytes_downloaded, counters.bytes_total);
    let flags = match snapshot.state_flags {
        Some(f) => f,
        None => 0,
    };
    match infer_steam_download_state(flags, has_progress, has_active_download_directory) {
        Some(state) => Some(
            SteamDownloadStatus {
                state,
                bytes_downloaded: counters.bytes_downloaded,
                bytes_total: counters.bytes_total,
                progress: download_progress_fraction(counters.bytes_downloaded, counters.bytes_total),
            },
        ),
        None => None,
    }
}


/// A paused item is reported as paused whatever else its flags and signals
/// say, downloading included.
pub proof fn lemma_paused_dominates(flags: u64, has_progress: bool, has_dir: bool)
    requires
        has_flag(flags, STEAM_APP_STATE_UPDATE_PAUSED),
    ensures
        download_state_spec(flags, has_progress, has_dir) == Some(SteamDownloadState::Paused),
{
}

/// Progress never exceeds the whole: a download at or past its total is
/// complete, and there is no progress without a positive total.
pub proof fn lemma_progress_clamped(downloaded: u64, total: u64)
    ensures
        total == 0 ==> progress_spec(Some(downloaded), Some(total)) is None,
        total > 0 && downloaded >= total ==> progress_spec(Some(downloaded), Some(total)) == Some(
            (total, total),
        ),
        total > 0 && downloaded < total ==> progress_spec(Some(downloaded), Some(total)) == Some(
            (downloaded, total),
        ),
{
}


/// Over a whole manifest: where it reports `BytesDownloaded` and
/// `BytesToDownload` and the item is mid-operation, a zero total gives no
/// total and no progress, and a positive one gives the downloaded count
/// clamped to it (all of it where the counts are equal).
pub proof fn lemma_manifest_progress(contents: Seq<char>, has_dir: bool, d: u64, t: u64)
    requires
        u64_field_spec(contents, "BytesDownloaded"@) == Some(d),
        u64_field_spec(contents, "BytesToDownload"@) == Some(t),
        download_status_spec(contents, has_dir) is Some,
    ensures
        download_status_spec(contents, has_dir) matches Some(e) && (t == 0 ==> e.2 is None
            && e.3 is None) && (t > 0 ==> e.1 == Some(d) && e.2 == Some(t) && e.3 == Some(
            (if d < t {
                d
            } else {
                t
            }, t),
        )),
{
}

} // verus!
