//! What the window and the background worker share: the commands the window
//! queues for the worker, and the state the worker reports back.

use vstd::prelude::*;
use crate::crypto::FileId;
use crate::ids::same_id;
use crate::config::AppConfig;
use crate::server::GlobalStats;
use crate::share::Share;
use crate::text::{push_chars, push_decimal, push_decimal_pad2, str_chars, string_from_chars};
use crate::tracker_proto::NetworkLobby;
use crate::ui::{as_float_exec, bytes_text, push_fixed, round_half_even_exec, uptime_text};

verus! {

#[verifier::external_type_specification]
#[verifier::external_body]
pub struct ExPathBuf(std::path::PathBuf);

/// A command from the window to the background worker.
#[derive(Debug)]
pub enum GuiControl {
    /// Start tor and the onion service.
    StartTor,
    /// Stop them.
    StopTor,
    /// Share a file.
    AddFile(std::path::PathBuf),
    /// Stop sharing a file.
    RemoveFile(FileId),
    /// Download the file of a link into a folder.
    DownloadItem(String, std::path::PathBuf),
    /// Refresh the lobby shown.
    RefreshTracker,
    /// Remember a bootstrap peer typed in by the user.
    AddBootstrapPeer(String),
}

/// A download as the window shows it.
#[derive(Debug, Clone)]
pub struct DownloadState {
    pub id: FileId,
    pub link: String,
    pub name: String,
    /// Progress in thousandths.
    pub progress: u64,
    pub bytes_downloaded: u64,
    pub total_bytes: u64,
    pub status: String,
    pub is_done: bool,
    pub error: Option<String>,
    pub speed_bytes_per_sec: u64,
    pub eta_seconds: Option<u64>,
    /// When the transfer started, in milliseconds of the worker's clock.
    pub start_time: Option<u64>,
}

/// A change to a download's state; a field left `None` keeps its value.
#[derive(Debug)]
pub struct DownloadUpdate {
    pub progress: Option<u64>,
    pub bytes_downloaded: Option<u64>,
    pub total_bytes: Option<u64>,
    pub name: Option<String>,
    pub status: Option<String>,
    /// An error ends the download.
    pub error: Option<String>,
    pub done: Option<bool>,
    pub speed: Option<u64>,
    pub start: Option<u64>,
    pub eta: Option<Option<u64>>,
}

/// A file this node shares, as the window lists it.
#[derive(Debug, Clone)]
pub struct SharedFileInfo {
    pub file_id: FileId,
    pub name: String,
    pub size: u64,
    pub link: String,
    pub content_hash: String,
    pub downloads: u64,
    /// When it was added, in milliseconds of the worker's clock.
    pub added_at: u64,
}

/// Where starting tor stands (progress in thousandths).
#[derive(Debug, Clone, PartialEq)]
pub enum TorInitState {
    Idle,
    Starting { progress: u64, message: String },
    Ready,
    Error(String),
    Installing { progress: u64, message: String },
}

impl Default for TorInitState {
    /// Idle: tor has not been asked to start.
    fn default() -> (s: Self)
        ensures
            s is Idle,
    {
        TorInitState::Idle
    }
}

impl TorInitState {
    /// Whether starting tor is over, for better or worse (the start dialog
    /// then closes).
    pub fn is_settled(&self) -> (r: bool)
        ensures
            r == (*self is Ready || *self is Error),
    {
        match self {
            TorInitState::Ready => true,
            TorInitState::Error(_) => true,
            _ => false,
        }
    }
}

/// What the download button did.
#[derive(Debug, Clone, Copy, PartialEq, Eq, Structural)]
pub enum DownloadRequest {
    /// Tor is off: the button is disabled.
    Disabled,
    /// No link was typed in.
    NeedLink,
    /// No destination folder was chosen.
    NeedFolder,
    /// The download was queued.
    Queued,
}

/// A line of the dashboard's recent-activity card.
#[derive(Debug, Clone, Copy, PartialEq, Eq, Structural)]
pub enum Activity {
    /// Nothing happened yet.
    Nothing,
    /// That many downloader sessions.
    Sessions(u64),
    /// That many chunks served.
    ChunksServed(u64),
    /// That many files shared.
    ActiveFiles(usize),
}

/// The recent-activity lines: `Nothing` while there was no session and
/// nothing is shared; otherwise sessions, chunks served and shared files,
/// each only when non-zero.
pub open spec fn activity_lines(sessions: u64, chunks: u64, files: nat) -> Seq<Activity> {
    if sessions == 0 && files == 0 {
        seq![Activity::Nothing]
    } else {
        (if sessions > 0 { seq![Activity::Sessions(sessions)] } else { Seq::empty() })
            + (if chunks > 0 { seq![Activity::ChunksServed(chunks)] } else { Seq::empty() })
            + (if files > 0 { seq![Activity::ActiveFiles(files as usize)] } else { Seq::empty() })
    }
}

/// What the window reads and the worker writes.
#[derive(Debug)]
pub struct SharedState {
    pub tor_active: bool,
    pub onion_addr: Option<String>,
    pub tor_socks_addr: Option<String>,
    pub online_now: usize,
    pub total_sessions: u64,
    pub total_bytes: u64,
    pub chunks_served: u64,
    /// When the node came online, in milliseconds of the worker's clock.
    pub start_time: Option<u64>,
    pub tor_init: TorInitState,
    pub shared_files: Vec<SharedFileInfo>,
    pub active_downloads: Vec<DownloadState>,
    pub global_lobby: NetworkLobby,
    /// Commands queued by the window, taken by the worker.
    pub control_queue: Vec<GuiControl>,
}

impl Default for SharedState {
    /// Offline, nothing shared or downloading, an empty lobby and no
    /// command queued.
    fn default() -> (s: Self)
        ensures
            !s.tor_active,
            s.onion_addr is None,
            s.tor_socks_addr is None,
            s.online_now == 0,
            s.total_sessions == 0,
            s.total_bytes == 0,
            s.chunks_served == 0,
            s.start_time is None,
            s.tor_init is Idle,
            s.shared_files@.len() == 0,
            s.active_downloads@.len() == 0,
            s.global_lobby.online_nodes == 0,
            s.global_lobby.files@.len() == 0,
            s.control_queue@.len() == 0,
    {
        SharedState {
            tor_active: false,
            onion_addr: None,
            tor_socks_addr: None,
            online_now: 0,
            total_sessions: 0,
            total_bytes: 0,
            chunks_served: 0,
            start_time: None,
            tor_init: TorInitState::Idle,
            shared_files: Vec::new(),
            active_downloads: Vec::new(),
            global_lobby: NetworkLobby { online_nodes: 0, files: Vec::new() },
            control_queue: Vec::new(),
        }
    }
}

/// Seconds online at `now_ms` for a node online since `start` (none: zero;
/// a clock reading before the start counts as zero).
pub open spec fn online_secs(start: Option<u64>, now_ms: u64) -> nat {
    match start {
        Some(t) => if now_ms >= t { ((now_ms - t) / 1000) as nat } else { 0 },
        None => 0,
    }
}

/// `o`'s value, or `v` when `o` is `None`.
pub open spec fn or_keep<T>(o: Option<T>, v: T) -> T {
    match o {
        Some(x) => x,
        None => v,
    }
}

/// A download's state after an update.
pub open spec fn applied(d: DownloadState, u: DownloadUpdate) -> DownloadState {
    DownloadState {
        id: d.id,
        link: d.link,
        name: or_keep(u.name, d.name),
        progress: or_keep(u.progress, d.progress),
        bytes_downloaded: or_keep(u.bytes_downloaded, d.bytes_downloaded),
        total_bytes: or_keep(u.total_bytes, d.total_bytes),
        status: or_keep(u.status, d.status),
        is_done: match u.done {
            Some(x) => x,
            None => if u.error is Some { true } else { d.is_done },
        },
        error: if u.error is Some { u.error } else { d.error },
        speed_bytes_per_sec: or_keep(u.speed, d.speed_bytes_per_sec),
        eta_seconds: or_keep(u.eta, d.eta_seconds),
        start_time: match u.start {
            Some(t) => Some(t),
            None => d.start_time,
        },
    }
}

/// The update law: a field the update sets takes the update's value, a field
/// it leaves `None` keeps its value; an error is recorded and ends the
/// download unless the update itself says whether it is done; the id and
/// link never change.
pub proof fn lemma_update_fields(d: DownloadState, u: DownloadUpdate)
    ensures
        applied(d, u).id == d.id,
        applied(d, u).link == d.link,
        u.status matches Some(st) ==> applied(d, u).status == st,
        u.status is None ==> applied(d, u).status == d.status,
        u.name matches Some(n) ==> applied(d, u).name == n,
        u.name is None ==> applied(d, u).name == d.name,
        u.progress matches Some(p) ==> applied(d, u).progress == p,
        u.progress is None ==> applied(d, u).progress == d.progress,
        u.bytes_downloaded matches Some(b) ==> applied(d, u).bytes_downloaded == b,
        u.bytes_downloaded is None ==> applied(d, u).bytes_downloaded == d.bytes_downloaded,
        u.total_bytes matches Some(t) ==> applied(d, u).total_bytes == t,
        u.total_bytes is None ==> applied(d, u).total_bytes == d.total_bytes,
        u.speed matches Some(v) ==> applied(d, u).speed_bytes_per_sec == v,
        u.speed is None ==> applied(d, u).speed_bytes_per_sec == d.speed_bytes_per_sec,
        u.eta matches Some(e) ==> applied(d, u).eta_seconds == e,
        u.eta is None ==> applied(d, u).eta_seconds == d.eta_seconds,
        u.start matches Some(t) ==> applied(d, u).start_time == Some(t),
        u.start is None ==> applied(d, u).start_time == d.start_time,
        u.error is Some ==> applied(d, u).error == u.error,
        u.error is None ==> applied(d, u).error == d.error,
        u.done matches Some(x) ==> applied(d, u).is_done == x,
        u.done is None && u.error is Some ==> applied(d, u).is_done,
        u.done is None && u.error is None ==> applied(d, u).is_done == d.is_done,
{
}

/// The position of the first download with id `id`, from `from` on (-1 if
/// none).
pub open spec fn first_download(s: Seq<DownloadState>, id: Seq<u8>, from: int) -> int
    decreases s.len() - from,
{
    if from < 0 || from >= s.len() {
        -1
    } else if s[from].id@ == id {
        from
    } else {
        first_download(s, id, from + 1)
    }
}

fn apply_update(d: &mut DownloadState, u: DownloadUpdate)
    ensures
        *final(d) == applied(*old(d), u),
{
    let DownloadUpdate { progress, bytes_downloaded, total_bytes, name, status, error, done, speed, start, eta } = u;
    if let Some(p) = progress {
        d.progress = p;
    }
    if let Some(b) = bytes_downloaded {
        d.bytes_downloaded = b;
    }
    if let Some(t) = total_bytes {
        d.total_bytes = t;
    }
    if let Some(n) = name {
        d.name = n;
    }
    if let Some(st) = status {
        d.status = st;
    }
    if let Some(e) = error {
        d.error = Some(e);
        d.is_done = true;
    }
    if let Some(x) = done {
        d.is_done = x;
    }
    if let Some(s) = speed {
        d.speed_bytes_per_sec = s;
    }
    if let Some(t) = start {
        d.start_time = Some(t);
    }
    if let Some(e) = eta {
        d.eta_seconds = e;
    }
}

impl SharedState {
    /// How long the node has been online at `now_ms`, as `HH:MM:SS`
    /// (`00:00:00` when offline).
    pub fn uptime_str(&self, now_ms: u64) -> (s: String)
        ensures
            s@ == uptime_text(online_secs(self.start_time, now_ms)),
    {
        let secs: u64 = match self.start_time {
            Some(t) => if now_ms >= t { (now_ms - t) / 1000 } else { 0 },
            None => 0,
        };
        let mut out: Vec<char> = Vec::new();
        push_decimal_pad2(&mut out, secs / 3600);
        push_chars(&mut out, &str_chars(":"));
        push_decimal_pad2(&mut out, (secs % 3600) / 60);
        push_chars(&mut out, &str_chars(":"));
        push_decimal_pad2(&mut out, secs % 60);
        string_from_chars(&out)
    }

    /// A byte count as the window shows it (`0 B`, `1.0 KB`, `1.00 MB`,
    /// `1.00 GB`).
    pub fn fmt_bytes(b: u64) -> (s: String)
        ensures
            s@ == bytes_text(b as nat),
    {
        let mut out: Vec<char> = Vec::new();
        if b >= 0x4000_0000 {
            let v = as_float_exec(b);
            let q = round_half_even_exec(v * 100, 0x4000_0000);
            proof {
                assert(q <= v * 100 / 0x4000_0000 + 1);
            }
            push_fixed(&mut out, q as u64, 2);
            push_chars(&mut out, &str_chars(" GB"));
        } else if b >= 0x10_0000 {
            let q = round_half_even_exec(b as u128 * 100, 0x10_0000);
            push_fixed(&mut out, q as u64, 2);
            push_chars(&mut out, &str_chars(" MB"));
        } else if b >= 1024 {
            let q = round_half_even_exec(b as u128 * 10, 1024);
            push_fixed(&mut out, q as u64, 1);
            push_chars(&mut out, &str_chars(" KB"));
        } else {
            push_decimal(&mut out, b);
            push_chars(&mut out, &str_chars(" B"));
        }
        string_from_chars(&out)
    }

    /// The window's tor switch: queues `StopTor` when tor is on and
    /// `StartTor` when it is off. Returns whether the start dialog opens
    /// (when starting).
    pub fn toggle_tor(&mut self) -> (opens_dialog: bool)
        ensures
            opens_dialog == !old(self).tor_active,
            final(self).control_queue@ == old(self).control_queue@.push(
                if old(self).tor_active { GuiControl::StopTor } else { GuiControl::StartTor },
            ),
            *final(self) == (SharedState { control_queue: final(self).control_queue, ..*old(self) }),
    {
        if self.tor_active {
            self.control_queue.push(GuiControl::StopTor);
            false
        } else {
            self.control_queue.push(GuiControl::StartTor);
            true
        }
    }

    /// Files picked or dropped in the window: queued for sharing, in order,
    /// when tor is on; refused (nothing queued, `false`) when it is off.
    pub fn share_paths(&mut self, paths: Vec<std::path::PathBuf>) -> (queued: bool)
        ensures
            queued == old(self).tor_active,
            old(self).tor_active ==> final(self).control_queue@ == old(self).control_queue@
                + paths@.map_values(|p: std::path::PathBuf| GuiControl::AddFile(p)),
            !old(self).tor_active ==> final(self).control_queue@ == old(self).control_queue@,
            *final(self) == (SharedState { control_queue: final(self).control_queue, ..*old(self) }),
    {
        if !self.tor_active {
            return false;
        }
        let ghost orig = paths@;
        let mut rest = paths;
        let ghost mut i: int = 0;
        while rest.len() > 0
            invariant
                0 <= i <= orig.len(),
                rest@ == orig.skip(i),
                self.control_queue@ == old(self).control_queue@
                    + orig.take(i).map_values(|p: std::path::PathBuf| GuiControl::AddFile(p)),
                *self == (SharedState { control_queue: self.control_queue, ..*old(self) }),
            decreases rest.len(),
        {
            let p = rest.remove(0);
            proof {
                assert(orig.skip(i)[0] == p);
            }
            let ghost before = self.control_queue@;
            self.control_queue.push(GuiControl::AddFile(p));
            proof {
                assert(orig.take(i + 1) =~= orig.take(i).push(orig[i]));
                assert(orig.skip(i + 1) =~= orig.skip(i).drop_first());
                i = i + 1;
                assert(self.control_queue@ =~= old(self).control_queue@
                    + orig.take(i).map_values(|p: std::path::PathBuf| GuiControl::AddFile(p)));
            }
        }
        assert(orig.take(i) =~= orig);
        true
    }

    /// Queues `StartTor` when the terms were accepted and tor is available:
    /// the window's start-up decision. Returns whether it did.
    pub fn start_if_ready(&mut self, terms_accepted: bool, tor_available: bool) -> (started: bool)
        ensures
            started == (terms_accepted && tor_available),
            started ==> final(self).control_queue@ == old(self).control_queue@.push(GuiControl::StartTor),
            !started ==> final(self).control_queue@ == old(self).control_queue@,
            *final(self) == (SharedState { control_queue: final(self).control_queue, ..*old(self) }),
    {
        if terms_accepted && tor_available {
            self.control_queue.push(GuiControl::StartTor);
            true
        } else {
            false
        }
    }

    /// The download button: disabled while tor is off; otherwise it asks
    /// for a link, then for a folder, and queues the download of `link`
    /// into `folder` once it has both.
    pub fn request_download(&mut self, link: String, folder: Option<std::path::PathBuf>) -> (r: DownloadRequest)
        ensures
            !old(self).tor_active ==> r == DownloadRequest::Disabled,
            old(self).tor_active && link@.len() == 0 ==> r == DownloadRequest::NeedLink,
            old(self).tor_active && link@.len() > 0 && folder is None ==> r == DownloadRequest::NeedFolder,
            old(self).tor_active && link@.len() > 0 && folder is Some ==> r == DownloadRequest::Queued,
            r == DownloadRequest::Queued ==> final(self).control_queue@
                == old(self).control_queue@.push(GuiControl::DownloadItem(link, folder->Some_0)),
            r != DownloadRequest::Queued ==> final(self).control_queue@ == old(self).control_queue@,
            *final(self) == (SharedState { control_queue: final(self).control_queue, ..*old(self) }),
    {
        if !self.tor_active {
            return DownloadRequest::Disabled;
        }
        if link.as_str().is_empty() {
            return DownloadRequest::NeedLink;
        }
        match folder {
            Some(d) => {
                self.control_queue.push(GuiControl::DownloadItem(link, d));
                DownloadRequest::Queued
            },
            None => DownloadRequest::NeedFolder,
        }
    }

    /// The remove button of the `i`-th shared file: queues its removal.
    /// Returns whether there is such a file.
    pub fn request_remove(&mut self, i: usize) -> (queued: bool)
        ensures
            queued == (i < old(self).shared_files@.len()),
            queued ==> final(self).control_queue@
                == old(self).control_queue@.push(GuiControl::RemoveFile(old(self).shared_files@[i as int].file_id)),
            !queued ==> final(self).control_queue@ == old(self).control_queue@,
            *final(self) == (SharedState { control_queue: final(self).control_queue, ..*old(self) }),
    {
        if i < self.shared_files.len() {
            let id = self.shared_files[i].file_id;
            self.control_queue.push(GuiControl::RemoveFile(id));
            true
        } else {
            false
        }
    }

    /// The connect button of the bootstrap-peer field: queues the peer typed
    /// in unless the field is empty. Returns whether it did.
    pub fn request_bootstrap_peer(&mut self, peer: String) -> (queued: bool)
        ensures
            queued == (peer@.len() > 0),
            queued ==> final(self).control_queue@ == old(self).control_queue@.push(GuiControl::AddBootstrapPeer(peer)),
            !queued ==> final(self).control_queue@ == old(self).control_queue@,
            *final(self) == (SharedState { control_queue: final(self).control_queue, ..*old(self) }),
    {
        if !peer.as_str().is_empty() {
            self.control_queue.push(GuiControl::AddBootstrapPeer(peer));
            true
        } else {
            false
        }
    }

    /// The dashboard's recent-activity lines.
    pub fn recent_activity(&self) -> (v: Vec<Activity>)
        ensures
            v@ == activity_lines(self.total_sessions, self.chunks_served, self.shared_files@.len()),
    {
        let files = self.shared_files.len();
        let mut v: Vec<Activity> = Vec::new();
        if self.total_sessions == 0 && files == 0 {
            v.push(Activity::Nothing);
            assert(v@ =~= activity_lines(self.total_sessions, self.chunks_served, self.shared_files@.len()));
            return v;
        }
        if self.total_sessions > 0 {
            v.push(Activity::Sessions(self.total_sessions));
        }
        if self.chunks_served > 0 {
            v.push(Activity::ChunksServed(self.chunks_served));
        }
        if files > 0 {
            v.push(Activity::ActiveFiles(files));
        }
        assert(v@ =~= activity_lines(self.total_sessions, self.chunks_served, self.shared_files@.len()));
        v
    }

    /// The onion service is being created (progress 820 thousandths).
    pub fn tor_starting(&mut self)
        ensures
            final(self).tor_init matches TorInitState::Starting { progress, message }
                && progress == 820 && message@ == "Criando Onion Service…"@,
            *final(self) == (SharedState { tor_init: final(self).tor_init, ..*old(self) }),
    {
        self.tor_init = TorInitState::Starting { progress: 820, message: "Criando Onion Service…".to_string() };
    }

    /// Starting tor failed for `reason`.
    pub fn tor_start_failed(&mut self, reason: &str)
        ensures
            final(self).tor_init matches TorInitState::Error(m) && m@ == "Falha ao iniciar Tor: "@ + reason@
                + ".\nVerifique se o Tor está instalado: https://www.torproject.org"@,
            *final(self) == (SharedState { tor_init: final(self).tor_init, ..*old(self) }),
    {
        let mut out = str_chars("Falha ao iniciar Tor: ");
        push_chars(&mut out, &str_chars(reason));
        push_chars(&mut out, &str_chars(".\nVerifique se o Tor está instalado: https://www.torproject.org"));
        self.tor_init = TorInitState::Error(string_from_chars(&out));
    }

    /// Sharing a file failed for `reason`.
    pub fn add_file_failed(&mut self, reason: &str)
        ensures
            final(self).tor_init matches TorInitState::Error(m) && m@ == "Erro ao adicionar arquivo: "@ + reason@,
            *final(self) == (SharedState { tor_init: final(self).tor_init, ..*old(self) }),
    {
        let mut out = str_chars("Erro ao adicionar arquivo: ");
        push_chars(&mut out, &str_chars(reason));
        self.tor_init = TorInitState::Error(string_from_chars(&out));
    }

    /// A file is now shared under `link`, since `now_ms`: it is listed last,
    /// with no download yet.
    pub fn file_shared(&mut self, share: &Share, link: String, now_ms: u64)
        ensures
            final(self).shared_files@ == old(self).shared_files@.push(SharedFileInfo {
                file_id: share.file_id,
                name: share.file_name,
                size: share.file_size,
                link,
                content_hash: share.content_hash,
                downloads: 0,
                added_at: now_ms,
            }),
            *final(self) == (SharedState { shared_files: final(self).shared_files, ..*old(self) }),
    {
        self.shared_files.push(SharedFileInfo {
            file_id: share.file_id,
            name: share.file_name.clone(),
            size: share.file_size,
            link,
            content_hash: share.content_hash.clone(),
            downloads: 0,
            added_at: now_ms,
        });
    }

    /// The accept button of the terms of use: the settings record the
    /// acceptance and tor is started.
    pub fn accept_terms(&mut self, cfg: &mut AppConfig)
        ensures
            *final(cfg) == (AppConfig { terms_accepted: true, ..*old(cfg) }),
            final(self).control_queue@ == old(self).control_queue@.push(GuiControl::StartTor),
            *final(self) == (SharedState { control_queue: final(self).control_queue, ..*old(self) }),
    {
        cfg.terms_accepted = true;
        self.control_queue.push(GuiControl::StartTor);
    }

    /// Takes every queued command, oldest first, leaving the queue empty.
    pub fn take_controls(&mut self) -> (cmds: Vec<GuiControl>)
        ensures
            cmds@ == old(self).control_queue@,
            final(self).control_queue@.len() == 0,
            *final(self) == (SharedState { control_queue: final(self).control_queue, ..*old(self) }),
    {
        let mut cmds: Vec<GuiControl> = Vec::new();
        std::mem::swap(&mut cmds, &mut self.control_queue);
        cmds
    }

    /// Tor and the onion service came up at `now_ms`.
    pub fn tor_started(&mut self, onion: String, socks_addr: String, now_ms: u64)
        ensures
            *final(self) == (SharedState {
                tor_active: true,
                onion_addr: Some(onion),
                tor_socks_addr: Some(socks_addr),
                start_time: Some(now_ms),
                tor_init: TorInitState::Ready,
                ..*old(self)
            }),
    {
        self.tor_active = true;
        self.onion_addr = Some(onion);
        self.tor_socks_addr = Some(socks_addr);
        self.start_time = Some(now_ms);
        self.tor_init = TorInitState::Ready;
    }

    /// `StartTor` while the service already runs: the window is told again
    /// that it is on, at `onion`.
    pub fn tor_already_running(&mut self, onion: String)
        ensures
            *final(self) == (SharedState {
                tor_active: true,
                onion_addr: Some(onion),
                tor_init: TorInitState::Ready,
                ..*old(self)
            }),
    {
        self.tor_active = true;
        self.onion_addr = Some(onion);
        self.tor_init = TorInitState::Ready;
    }

    /// Tor and the onion service were stopped: offline, nobody online.
    pub fn tor_stopped(&mut self)
        ensures
            *final(self) == (SharedState {
                tor_active: false,
                onion_addr: None,
                tor_socks_addr: None,
                start_time: None,
                online_now: 0,
                tor_init: TorInitState::Idle,
                ..*old(self)
            }),
    {
        self.tor_active = false;
        self.onion_addr = None;
        self.tor_socks_addr = None;
        self.start_time = None;
        self.online_now = 0;
        self.tor_init = TorInitState::Idle;
    }

    /// Copies the server's counters into the state the window shows.
    pub fn apply_stats(&mut self, stats: &GlobalStats)
        ensures
            *final(self) == (SharedState {
                total_sessions: stats.total_sessions,
                total_bytes: stats.total_bytes_sent,
                chunks_served: stats.chunks_served,
                ..*old(self)
            }),
    {
        self.total_sessions = stats.total_sessions;
        self.total_bytes = stats.total_bytes_sent;
        self.chunks_served = stats.chunks_served;
    }

    /// Forgets the shared file `id` (every entry with that id), keeping the
    /// others in order.
    pub fn remove_shared_file(&mut self, id: &FileId)
        ensures
            final(self).shared_files@ == old(self).shared_files@.filter(|f: SharedFileInfo| f.file_id@ != id@),
            *final(self) == (SharedState { shared_files: final(self).shared_files, ..*old(self) }),
    {
        let ghost pred = |f: SharedFileInfo| f.file_id@ != id@;
        let ghost orig = self.shared_files@;
        let mut rest: Vec<SharedFileInfo> = Vec::new();
        std::mem::swap(&mut rest, &mut self.shared_files);
        let mut kept: Vec<SharedFileInfo> = Vec::new();
        let ghost mut i: int = 0;
        while rest.len() > 0
            invariant
                0 <= i <= orig.len(),
                rest@ == orig.skip(i),
                kept@ == orig.take(i).filter(pred),
                pred == (|f: SharedFileInfo| f.file_id@ != id@),
                *self == (SharedState { shared_files: self.shared_files, ..*old(self) }),
            decreases rest.len(),
        {
            let f = rest.remove(0);
            proof {
                assert(orig.skip(i)[0] == f);
                assert(orig.take(i + 1) =~= orig.take(i).push(orig[i]));
                orig.take(i).lemma_filter_push(orig[i], pred);
                assert(orig.skip(i + 1) =~= orig.skip(i).drop_first());
            }
            if !same_id(&f.file_id, id) {
                kept.push(f);
            }
            proof {
                i = i + 1;
            }
        }
        assert(orig.take(i) =~= orig);
        self.shared_files = kept;
    }

    /// Shows a new download of `link`, waiting to connect.
    pub fn start_download(&mut self, id: FileId, link: String)
        ensures
            final(self).active_downloads@ == old(self).active_downloads@.push(DownloadState {
                id,
                link,
                name: final(self).active_downloads@.last().name,
                progress: 0,
                bytes_downloaded: 0,
                total_bytes: 0,
                status: final(self).active_downloads@.last().status,
                is_done: false,
                error: None,
                speed_bytes_per_sec: 0,
                eta_seconds: None,
                start_time: None,
            }),
            final(self).active_downloads@.last().name@ == "Aguardando..."@,
            final(self).active_downloads@.last().status@ == "Conectando ao tracker/peer..."@,
            *final(self) == (SharedState { active_downloads: final(self).active_downloads, ..*old(self) }),
    {
        self.active_downloads.push(DownloadState {
            id,
            link,
            name: "Aguardando...".to_string(),
            progress: 0,
            bytes_downloaded: 0,
            total_bytes: 0,
            status: "Conectando ao tracker/peer...".to_string(),
            is_done: false,
            error: None,
            speed_bytes_per_sec: 0,
            eta_seconds: None,
            start_time: None,
        });
    }

    /// Applies an update to the first download with id `id`; returns
    /// whether there was one (otherwise nothing changes).
    pub fn update_download(&mut self, id: &FileId, u: DownloadUpdate) -> (found: bool)
        ensures
            found == (first_download(old(self).active_downloads@, id@, 0) != -1),
            found ==> final(self).active_downloads@ == old(self).active_downloads@.update(
                first_download(old(self).active_downloads@, id@, 0),
                applied(old(self).active_downloads@[first_download(old(self).active_downloads@, id@, 0)], u),
            ),
            !found ==> final(self).active_downloads@ == old(self).active_downloads@,
            found && u.status is Some ==> final(self).active_downloads@[first_download(old(self).active_downloads@, id@, 0)].status
                == u.status->0,
            found && u.progress is Some ==> final(self).active_downloads@[first_download(old(self).active_downloads@, id@, 0)].progress
                == u.progress->0,
            *final(self) == (SharedState { active_downloads: final(self).active_downloads, ..*old(self) }),
    {
        let ghost s = self.active_downloads@;
        let mut i: usize = 0;
        while i < self.active_downloads.len()
            invariant
                i <= s.len(),
                s == self.active_downloads@,
                *self == *old(self),
                s == old(self).active_downloads@,
                first_download(s, id@, 0) == first_download(s, id@, i as int),
            decreases self.active_downloads.len() - i,
        {
            if same_id(&self.active_downloads[i].id, id) {
                let mut d = DownloadState {
                    id: [0u8; 16],
                    link: String::new(),
                    name: String::new(),
                    progress: 0,
                    bytes_downloaded: 0,
                    total_bytes: 0,
                    status: String::new(),
                    is_done: false,
                    error: None,
                    speed_bytes_per_sec: 0,
                    eta_seconds: None,
                    start_time: None,
                };
                self.active_downloads.set_and_swap(i, &mut d);
                assert(d == s[i as int]);
                proof {
                    lemma_update_fields(s[i as int], u);
                }
                apply_update(&mut d, u);
                self.active_downloads.set(i, d);
                return true;
            }
            i += 1;
        }
        false
    }
}

} // verus!
