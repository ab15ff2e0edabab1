//! The jobs that run in the background.
//!
//! A job does one thing after the other: it asks the network or the disk for
//! something, looks at what came of it, tells the window and goes on or gives up.
//! What is asked is done by the caller; here stands what follows from the answer.

use vstd::prelude::*;
use vstd::string::*;

use crate::http::{is_status, is_success, is_success_status, status_shown, status_text};
use crate::release::{
    assets_in, assets_in_text, install_asset_url, install_url, json_read,
    law_install_is_first_install_archive, release_assets, release_model, Asset, AssetModel,
    ReleaseError,
};

verus! {

/// What a job tells the window.
#[derive(Debug)]
pub enum JobMsg {
    /// What it is doing.
    Status(String),
    /// How many bytes it has, and how many there will be if that is known.
    Progress { current: u64, total: Option<u64> },
    /// It is through.
    Done(String),
    /// It gave up.
    Error(String),
}

/// A [`JobMsg`] in the mathematical model.
pub enum MsgModel {
    Status(Seq<char>),
    Progress { current: u64, total: Option<u64> },
    Done(Seq<char>),
    Error(Seq<char>),
}

impl View for JobMsg {
    type V = MsgModel;

    open spec fn view(&self) -> MsgModel {
        match *self {
            JobMsg::Status(s) => MsgModel::Status(s@),
            JobMsg::Progress { current, total } => MsgModel::Progress { current, total },
            JobMsg::Done(s) => MsgModel::Done(s@),
            JobMsg::Error(e) => MsgModel::Error(e@),
        }
    }
}

/// Messages in the model.
pub open spec fn msgs_model(msgs: Seq<JobMsg>) -> Seq<MsgModel> {
    msgs.map_values(|m: JobMsg| m@)
}

/// The messages with which a job ends.
pub open spec fn is_last_word(m: MsgModel) -> bool {
    m is Done || m is Error
}

/// No message.
fn nothing() -> (r: Vec<JobMsg>)
    ensures
        msgs_model(r@) == Seq::<MsgModel>::empty(),
{
    let r: Vec<JobMsg> = Vec::new();
    assert(msgs_model(r@) =~= Seq::<MsgModel>::empty());
    r
}

/// One message.
fn only(m: JobMsg) -> (r: Vec<JobMsg>)
    ensures
        msgs_model(r@) == seq![m@],
{
    let mut r: Vec<JobMsg> = Vec::new();
    r.push(m);
    assert(msgs_model(r@) =~= seq![m@]);
    r
}

// -------------------------------------------------- downloading a playlist

/// How far the download of a playlist is, and so what is to be done next.
#[derive(PartialEq, Eq, Structural, Clone, Copy, Debug)]
pub enum DownloadStage {
    /// Make a client for the network.
    Client,
    /// Ask the server for the playlist.
    Request,
    /// Create the file; the answer announced this many bytes.
    Create { total: Option<u64> },
    /// Copy the answer into the file.
    Copy { total: Option<u64> },
    /// Nothing.
    Over,
}

/// What came of the last thing done.
#[derive(Debug)]
pub enum DownloadEvent {
    /// It worked.
    Ready,
    /// It failed.
    Failed,
    /// The server answered with this status and announced this many bytes.
    Reply { code: u16, total: Option<u64> },
    /// This many bytes were copied into the file at `path`.
    Copied { bytes: u64, path: String },
}

impl DownloadEvent {
    /// The status is one that an answer can carry.
    pub open spec fn valid(self) -> bool {
        self matches DownloadEvent::Reply { code, total } ==> is_status(code)
    }
}

/// The stage after an event. An event that does not belong to the stage changes
/// nothing.
pub open spec fn download_next(stage: DownloadStage, event: DownloadEvent) -> DownloadStage {
    match (stage, event) {
        (DownloadStage::Over, _) => DownloadStage::Over,
        (_, DownloadEvent::Failed) => DownloadStage::Over,
        (DownloadStage::Client, DownloadEvent::Ready) => DownloadStage::Request,
        (DownloadStage::Request, DownloadEvent::Reply { code, total }) => if is_success_status(code) {
            DownloadStage::Create { total }
        } else {
            DownloadStage::Over
        },
        (DownloadStage::Create { total }, DownloadEvent::Ready) => DownloadStage::Copy { total },
        (DownloadStage::Copy { total }, DownloadEvent::Copied { .. }) => DownloadStage::Over,
        _ => stage,
    }
}

/// What the window is told when a stage fails.
pub open spec fn download_failure(stage: DownloadStage) -> Seq<char> {
    match stage {
        DownloadStage::Client => "Nu pot inițializa clientul HTTP"@,
        DownloadStage::Request => "Cererea HTTP a eșuat"@,
        DownloadStage::Create { .. } => "Nu pot crea fișierul playlist"@,
        DownloadStage::Copy { .. } => "Eroare la copiere"@,
        DownloadStage::Over => Seq::empty(),
    }
}

/// What the window is told after an event.
pub open spec fn download_says(stage: DownloadStage, event: DownloadEvent) -> Seq<MsgModel> {
    match (stage, event) {
        (DownloadStage::Over, _) => Seq::empty(),
        (_, DownloadEvent::Failed) => seq![MsgModel::Error(download_failure(stage))],
        (DownloadStage::Client, DownloadEvent::Ready) => seq![MsgModel::Status("Conectare..."@)],
        (DownloadStage::Request, DownloadEvent::Reply { code, total }) => if is_success_status(code) {
            Seq::empty()
        } else {
            seq![MsgModel::Error("HTTP "@ + status_shown(code))]
        },
        (DownloadStage::Copy { total }, DownloadEvent::Copied { bytes, path }) => seq![
            MsgModel::Progress { current: bytes, total },
            MsgModel::Done("Playlist salvat: "@ + path@),
        ],
        _ => Seq::empty(),
    }
}

/// What follows from an event during the download of a playlist: the next stage
/// and what the window is told.
pub fn download_step(stage: DownloadStage, event: DownloadEvent) -> (r: (
    DownloadStage,
    Vec<JobMsg>,
))
    requires
        event.valid(),
    ensures
        r.0 == download_next(stage, event),
        msgs_model(r.1@) == download_says(stage, event),
{
    match (stage, event) {
        (DownloadStage::Over, _) => (DownloadStage::Over, nothing()),
        (_, DownloadEvent::Failed) => {
            let text = match stage {
                DownloadStage::Client => "Nu pot inițializa clientul HTTP".to_string(),
                DownloadStage::Request => "Cererea HTTP a eșuat".to_string(),
                DownloadStage::Create { .. } => "Nu pot crea fișierul playlist".to_string(),
                DownloadStage::Copy { .. } => "Eroare la copiere".to_string(),
                DownloadStage::Over => String::new(),
            };
            (DownloadStage::Over, only(JobMsg::Error(text)))
        },
        (DownloadStage::Client, DownloadEvent::Ready) => (
            DownloadStage::Request,
            only(JobMsg::Status("Conectare...".to_string())),
        ),
        (DownloadStage::Request, DownloadEvent::Reply { code, total }) => if is_success(code) {
            (DownloadStage::Create { total }, nothing())
        } else {
            (
                DownloadStage::Over,
                only(JobMsg::Error("HTTP ".to_string().concat(status_text(code).as_str()))),
            )
        },
        (DownloadStage::Create { total }, DownloadEvent::Ready) => (
            DownloadStage::Copy { total },
            nothing(),
        ),
        (DownloadStage::Copy { total }, DownloadEvent::Copied { bytes, path }) => {
            let mut msgs = only(JobMsg::Progress { current: bytes, total });
            let ghost first = msgs_model(msgs@);
            let done = JobMsg::Done("Playlist salvat: ".to_string().concat(path.as_str()));
            msgs.push(done);
            assert(msgs_model(msgs@) =~= first.push(done@));
            assert(first.push(done@) =~= download_says(stage, event));
            (DownloadStage::Over, msgs)
        },
        _ => (stage, nothing()),
    }
}

// ------------------------------------------------------ downloading a file

/// What follows from an event during the download of a file.
#[derive(Debug)]
pub enum SaveOutcome {
    /// Go on with this stage.
    Next(DownloadStage),
    /// The file is there; the window is told this.
    Finished(JobMsg),
    /// There is no file, for this reason.
    Failed(String),
}

/// A [`SaveOutcome`] in the mathematical model.
pub enum SaveModel {
    Next(DownloadStage),
    Finished(MsgModel),
    Failed(Seq<char>),
}

impl View for SaveOutcome {
    type V = SaveModel;

    open spec fn view(&self) -> SaveModel {
        match *self {
            SaveOutcome::Next(stage) => SaveModel::Next(stage),
            SaveOutcome::Finished(m) => SaveModel::Finished(m@),
            SaveOutcome::Failed(e) => SaveModel::Failed(e@),
        }
    }
}

/// What follows from an event during the download of the file at `url` to `path`.
/// The client for the network is there already. An event that does not belong to
/// the stage changes nothing.
pub open spec fn save_next(
    stage: DownloadStage,
    event: DownloadEvent,
    url: Seq<char>,
    path: Seq<char>,
) -> SaveModel {
    match (stage, event) {
        (DownloadStage::Request, DownloadEvent::Failed) => SaveModel::Failed(
            "Descărcarea a eșuat: "@ + url,
        ),
        (DownloadStage::Request, DownloadEvent::Reply { code, total }) => if is_success_status(code) {
            SaveModel::Next(DownloadStage::Create { total })
        } else {
            SaveModel::Failed("HTTP "@ + status_shown(code) + " la "@ + url)
        },
        (DownloadStage::Create { .. }, DownloadEvent::Failed) => SaveModel::Failed(
            "Nu pot crea fișier: "@ + path,
        ),
        (DownloadStage::Create { total }, DownloadEvent::Ready) => SaveModel::Next(
            DownloadStage::Copy { total },
        ),
        (DownloadStage::Copy { .. }, DownloadEvent::Failed) => SaveModel::Failed(
            "Eroare la copiere stream"@,
        ),
        (DownloadStage::Copy { total }, DownloadEvent::Copied { bytes, path }) => SaveModel::Finished(
            MsgModel::Progress { current: bytes, total },
        ),
        _ => SaveModel::Next(stage),
    }
}

/// What follows from an event during the download of the file at `url` to `path`.
pub fn download_to_file_with_progress(
    stage: DownloadStage,
    event: DownloadEvent,
    url: &str,
    path: &str,
) -> (r: SaveOutcome)
    requires
        event.valid(),
    ensures
        r@ == save_next(stage, event, url@, path@),
{
    match (stage, event) {
        (DownloadStage::Request, DownloadEvent::Failed) => SaveOutcome::Failed(
            "Descărcarea a eșuat: ".to_string().concat(url),
        ),
        (DownloadStage::Request, DownloadEvent::Reply { code, total }) => if is_success(code) {
            SaveOutcome::Next(DownloadStage::Create { total })
        } else {
            SaveOutcome::Failed(
                "HTTP ".to_string().concat(status_text(code).as_str()).concat(" la ").concat(url),
            )
        },
        (DownloadStage::Create { .. }, DownloadEvent::Failed) => SaveOutcome::Failed(
            "Nu pot crea fișier: ".to_string().concat(path),
        ),
        (DownloadStage::Create { total }, DownloadEvent::Ready) => SaveOutcome::Next(
            DownloadStage::Copy { total },
        ),
        (DownloadStage::Copy { .. }, DownloadEvent::Failed) => SaveOutcome::Failed(
            "Eroare la copiere stream".to_string(),
        ),
        (DownloadStage::Copy { total }, DownloadEvent::Copied { bytes, .. }) => SaveOutcome::Finished(
            JobMsg::Progress { current: bytes, total },
        ),
        _ => SaveOutcome::Next(stage),
    }
}

// ------------------------------------------------ installing and playing

/// How far the job is that installs the player and plays a playlist, and so what
/// is to be done next.
#[derive(PartialEq, Eq, Structural, Clone, Copy, Debug)]
pub enum PlayStage {
    /// Make a client for the network.
    Client,
    /// Ask the release service for the latest release.
    Release,
    /// Make sure that the directory of the player is there.
    MakeDir,
    /// Ask for the archive at the job's address.
    Request,
    /// Create the file for the archive; the answer announced this many bytes.
    Create { total: Option<u64> },
    /// Read on and write what was read into the file.
    Read { downloaded: u64, total: Option<u64> },
    /// Unpack the archive.
    Extract,
    /// Look for the program of the player.
    Find,
    /// Start the player.
    Launch,
    /// Nothing.
    Over,
}

/// What came of the last thing done.
#[derive(Debug)]
pub enum PlayEvent {
    /// It worked.
    Ready,
    /// It failed, for this reason.
    Failed(String),
    /// The release service's answer has this body; nothing stands for one that is
    /// no text.
    Body(Option<String>),
    /// The server answered with this status and announced this many bytes.
    Reply { code: u16, total: Option<u64> },
    /// This many bytes were read and written.
    Chunk(u64),
    /// There is no more to read.
    BodyEnd,
    /// The program of the player is there.
    Found,
    /// The program of the player is not there.
    NotFound,
}

/// The job that installs the player and plays a playlist.
#[derive(Debug)]
pub struct PlayJob {
    pub stage: PlayStage,
    /// Where the archive can be had, once that is known.
    pub url: String,
}

/// A [`PlayJob`] in the mathematical model.
pub struct PlayModel {
    pub stage: PlayStage,
    pub url: Seq<char>,
}

impl View for PlayJob {
    type V = PlayModel;

    open spec fn view(&self) -> PlayModel {
        PlayModel { stage: self.stage, url: self.url@ }
    }
}

/// The event can happen at the stage: the status is one that an answer can carry,
/// and the bytes read so far can be counted.
pub open spec fn play_event_valid(stage: PlayStage, event: PlayEvent) -> bool {
    match event {
        PlayEvent::Reply { code, .. } => is_status(code),
        PlayEvent::Chunk(n) => stage matches PlayStage::Read { downloaded, .. } ==> downloaded + n
            <= u64::MAX,
        _ => true,
    }
}

/// The job at its start.
pub open spec fn play_start() -> PlayModel {
    PlayModel { stage: PlayStage::Client, url: Seq::empty() }
}

/// The files that the latest release lists, out of the body of the release
/// service's answer; nothing where that is no JSON document.
pub open spec fn body_assets(body: Option<String>) -> Option<Option<Seq<AssetModel>>> {
    match body {
        Some(text) => assets_in_text(text@),
        None => None,
    }
}

/// The job once the latest release is known.
pub open spec fn play_with_release(
    job: PlayModel,
    release: Option<Option<Seq<AssetModel>>>,
) -> PlayModel {
    match release {
        Some(assets) => match install_url(assets) {
            Ok(url) => PlayModel { stage: PlayStage::MakeDir, url },
            Err(_) => PlayModel { stage: PlayStage::Over, url: job.url },
        },
        None => PlayModel { stage: PlayStage::Over, url: job.url },
    }
}

/// What the window is told once the latest release is known.
pub open spec fn play_release_says(release: Option<Option<Seq<AssetModel>>>) -> Seq<MsgModel> {
    match release {
        Some(assets) => match install_url(assets) {
            Ok(_) => seq![MsgModel::Status("Descarc mpv..."@)],
            Err(ReleaseError::NoAssets) => seq![MsgModel::Error("Nu pot citi assets din release"@)],
            Err(_) => seq![MsgModel::Error("Nu găsesc arhiva mpv-x86_64 în release"@)],
        },
        None => seq![MsgModel::Error("error decoding response body"@)],
    }
}

/// The job after an event. An event that does not belong to the stage changes
/// nothing.
pub open spec fn play_next(job: PlayModel, event: PlayEvent) -> PlayModel {
    let to = |stage: PlayStage| PlayModel { stage, url: job.url };
    match (job.stage, event) {
        (PlayStage::Over, _) => job,
        (PlayStage::Find, PlayEvent::Failed(_)) => job,
        (_, PlayEvent::Failed(_)) => to(PlayStage::Over),
        (PlayStage::Client, PlayEvent::Ready) => to(PlayStage::Release),
        (PlayStage::Release, PlayEvent::Body(body)) => play_with_release(job, body_assets(body)),
        (PlayStage::MakeDir, PlayEvent::Ready) => to(PlayStage::Request),
        (PlayStage::Request, PlayEvent::Reply { code, total }) => if is_success_status(code) {
            to(PlayStage::Create { total })
        } else {
            to(PlayStage::Over)
        },
        (PlayStage::Create { total }, PlayEvent::Ready) => to(
            PlayStage::Read { downloaded: 0, total },
        ),
        (PlayStage::Read { downloaded, total }, PlayEvent::Chunk(n)) => to(
            PlayStage::Read { downloaded: (downloaded + n) as u64, total },
        ),
        (PlayStage::Read { .. }, PlayEvent::BodyEnd) => to(PlayStage::Extract),
        (PlayStage::Extract, PlayEvent::Ready) => to(PlayStage::Find),
        (PlayStage::Find, PlayEvent::Found) => to(PlayStage::Launch),
        (PlayStage::Find, PlayEvent::NotFound) => to(PlayStage::Over),
        (PlayStage::Launch, PlayEvent::Ready) => to(PlayStage::Over),
        _ => job,
    }
}

/// What the window is told after an event.
pub open spec fn play_says(stage: PlayStage, event: PlayEvent) -> Seq<MsgModel> {
    match (stage, event) {
        (PlayStage::Over, _) => Seq::empty(),
        (PlayStage::Find, PlayEvent::Failed(_)) => Seq::empty(),
        (PlayStage::Extract, PlayEvent::Failed(e)) => seq![
            MsgModel::Error("Eroare extragere: "@ + e@),
        ],
        (_, PlayEvent::Failed(e)) => seq![MsgModel::Error(e@)],
        (PlayStage::Client, PlayEvent::Ready) => seq![
            MsgModel::Status("Caut ultima versiune mpv..."@),
        ],
        (PlayStage::Release, PlayEvent::Body(body)) => play_release_says(body_assets(body)),
        (PlayStage::Request, PlayEvent::Reply { code, total }) => if is_success_status(code) {
            Seq::empty()
        } else {
            seq![MsgModel::Error("HTTP "@ + status_shown(code) + " la mpv"@)]
        },
        (PlayStage::Read { downloaded, total }, PlayEvent::Chunk(n)) => seq![
            MsgModel::Progress { current: (downloaded + n) as u64, total },
        ],
        (PlayStage::Read { .. }, PlayEvent::BodyEnd) => seq![MsgModel::Status("Extrag mpv..."@)],
        (PlayStage::Find, PlayEvent::Found) => seq![MsgModel::Status("Pornesc redarea..."@)],
        (PlayStage::Find, PlayEvent::NotFound) => seq![
            MsgModel::Error("Nu găsesc mpv.exe după extragere"@),
        ],
        (PlayStage::Launch, PlayEvent::Ready) => seq![MsgModel::Done("Redare pornită."@)],
        _ => Seq::empty(),
    }
}

impl PlayJob {
    /// The job at its start.
    pub fn new() -> (r: PlayJob)
        ensures
            r@ == play_start(),
    {
        PlayJob { stage: PlayStage::Client, url: String::new() }
    }

    /// What follows once the latest release is known, or is known to be described
    /// in no JSON document.
    pub fn take_release(&mut self, release: Result<Option<Vec<Asset>>, ReleaseError>) -> (msgs: Vec<
        JobMsg,
    >)
        ensures
            final(self)@ == play_with_release(old(self)@, release_model(release)),
            msgs_model(msgs@) == play_release_says(release_model(release)),
    {
        match release {
            Ok(assets) => match install_asset_url(&assets) {
                Ok(url) => {
                    self.stage = PlayStage::MakeDir;
                    self.url = url;
                    only(JobMsg::Status("Descarc mpv...".to_string()))
                },
                Err(ReleaseError::NoAssets) => {
                    self.stage = PlayStage::Over;
                    only(JobMsg::Error("Nu pot citi assets din release".to_string()))
                },
                Err(_) => {
                    self.stage = PlayStage::Over;
                    only(JobMsg::Error("Nu găsesc arhiva mpv-x86_64 în release".to_string()))
                },
            },
            Err(_) => {
                self.stage = PlayStage::Over;
                only(JobMsg::Error("error decoding response body".to_string()))
            },
        }
    }

    /// What follows from an event: the job moves on, and the window is told the
    /// messages.
    pub fn step(&mut self, event: PlayEvent) -> (msgs: Vec<JobMsg>)
        requires
            play_event_valid(old(self).stage, event),
        ensures
            final(self)@ == play_next(old(self)@, event),
            msgs_model(msgs@) == play_says(old(self).stage, event),
    {
        match (self.stage, event) {
            (PlayStage::Over, _) => nothing(),
            (PlayStage::Find, PlayEvent::Failed(_)) => nothing(),
            (PlayStage::Extract, PlayEvent::Failed(e)) => {
                self.stage = PlayStage::Over;
                only(JobMsg::Error("Eroare extragere: ".to_string().concat(e.as_str())))
            },
            (_, PlayEvent::Failed(e)) => {
                self.stage = PlayStage::Over;
                only(JobMsg::Error(e))
            },
            (PlayStage::Client, PlayEvent::Ready) => {
                self.stage = PlayStage::Release;
                only(JobMsg::Status("Caut ultima versiune mpv...".to_string()))
            },
            (PlayStage::Release, PlayEvent::Body(body)) => {
                let release = match body {
                    Some(text) => release_assets(text.as_str()),
                    None => Err(ReleaseError::InvalidJson),
                };
                self.take_release(release)
            },
            (PlayStage::MakeDir, PlayEvent::Ready) => {
                self.stage = PlayStage::Request;
                nothing()
            },
            (PlayStage::Request, PlayEvent::Reply { code, total }) => if is_success(code) {
                self.stage = PlayStage::Create { total };
                nothing()
            } else {
                self.stage = PlayStage::Over;
                only(
                    JobMsg::Error(
                        "HTTP ".to_string().concat(status_text(code).as_str()).concat(" la mpv"),
                    ),
                )
            },
            (PlayStage::Create { total }, PlayEvent::Ready) => {
                self.stage = PlayStage::Read { downloaded: 0, total };
                nothing()
            },
            (PlayStage::Read { downloaded, total }, PlayEvent::Chunk(n)) => {
                let current: u64 = downloaded + n;
                self.stage = PlayStage::Read { downloaded: current, total };
                only(JobMsg::Progress { current, total })
            },
            (PlayStage::Read { .. }, PlayEvent::BodyEnd) => {
                self.stage = PlayStage::Extract;
                only(JobMsg::Status("Extrag mpv...".to_string()))
            },
            (PlayStage::Extract, PlayEvent::Ready) => {
                self.stage = PlayStage::Find;
                nothing()
            },
            (PlayStage::Find, PlayEvent::Found) => {
                self.stage = PlayStage::Launch;
                only(JobMsg::Status("Pornesc redarea...".to_string()))
            },
            (PlayStage::Find, PlayEvent::NotFound) => {
                self.stage = PlayStage::Over;
                only(JobMsg::Error("Nu găsesc mpv.exe după extragere".to_string()))
            },
            (PlayStage::Launch, PlayEvent::Ready) => {
                self.stage = PlayStage::Over;
                only(JobMsg::Done("Redare pornită.".to_string()))
            },
            _ => nothing(),
        }
    }
}

// --------------------------------------------------------------------- laws

/// The stage of a playlist download after a run of events.
pub open spec fn download_after(events: Seq<DownloadEvent>) -> DownloadStage
    decreases events.len(),
{
    if events.len() == 0 {
        DownloadStage::Client
    } else {
        download_next(download_after(events.drop_last()), events.last())
    }
}

/// All that the window is told during a run of events of a playlist download.
pub open spec fn download_told(events: Seq<DownloadEvent>) -> Seq<MsgModel>
    decreases events.len(),
{
    if events.len() == 0 {
        Seq::empty()
    } else {
        download_told(events.drop_last()) + download_says(
            download_after(events.drop_last()),
            events.last(),
        )
    }
}

/// The job that plays a playlist after a run of events.
pub open spec fn play_after(events: Seq<PlayEvent>) -> PlayModel
    decreases events.len(),
{
    if events.len() == 0 {
        play_start()
    } else {
        play_next(play_after(events.drop_last()), events.last())
    }
}

/// All that the window is told during a run of events of the job that plays a
/// playlist.
pub open spec fn play_told(events: Seq<PlayEvent>) -> Seq<MsgModel>
    decreases events.len(),
{
    if events.len() == 0 {
        Seq::empty()
    } else {
        play_told(events.drop_last()) + play_says(
            play_after(events.drop_last()).stage,
            events.last(),
        )
    }
}

/// The job has had its last word exactly if it is over, and then it is the last
/// message and the only one of its kind.
pub open spec fn ends_with_last_word(told: Seq<MsgModel>, over: bool) -> bool {
    &&& forall|i: int| 0 <= i < told.len() - 1 ==> !is_last_word(#[trigger] told[i])
    &&& over <==> told.len() > 0 && is_last_word(told.last())
}

/// Whatever happens, a playlist download that is over has told the window so, in
/// one message behind which there is no other; one that is not over has not.
pub proof fn law_download_has_one_last_word(events: Seq<DownloadEvent>)
    ensures
        ends_with_last_word(download_told(events), download_after(events) is Over),
    decreases events.len(),
{
    if events.len() > 0 {
        let before = events.drop_last();
        law_download_has_one_last_word(before);
        let said = download_says(download_after(before), events.last());
        let told = download_told(before) + said;
        assert(download_after(before) is Over ==> said.len() == 0);
        assert forall|i: int| 0 <= i < told.len() - 1 implies !is_last_word(#[trigger] told[i]) by {
            if i < download_told(before).len() {
                assert(told[i] == download_told(before)[i]);
            } else {
                assert(told[i] == said[i - download_told(before).len()]);
            }
        }
        if said.len() > 0 {
            assert(told.last() == said.last());
        } else {
            assert(told =~= download_told(before));
        }
    }
}

/// Whatever happens, a job that plays a playlist and is over has told the window
/// so, in one message behind which there is no other; one that is not over has
/// not.
pub proof fn law_play_has_one_last_word(events: Seq<PlayEvent>)
    ensures
        ends_with_last_word(play_told(events), play_after(events).stage is Over),
    decreases events.len(),
{
    if events.len() > 0 {
        let before = events.drop_last();
        law_play_has_one_last_word(before);
        let said = play_says(play_after(before).stage, events.last());
        let told = play_told(before) + said;
        assert(play_after(before).stage is Over ==> said.len() == 0);
        assert forall|i: int| 0 <= i < told.len() - 1 implies !is_last_word(#[trigger] told[i]) by {
            if i < play_told(before).len() {
                assert(told[i] == play_told(before)[i]);
            }
        }
        if said.len() > 0 {
            assert(told.last() == said.last());
        } else {
            assert(told =~= play_told(before));
        }
    }
}

/// The job is past the release and not over.
pub open spec fn has_archive_url(stage: PlayStage) -> bool {
    !(stage is Client || stage is Release || stage is Over)
}

/// The event is an answer whose body gives `url` for the install archive.
pub open spec fn gives_archive_url(event: PlayEvent, url: Seq<char>) -> bool {
    event matches PlayEvent::Body(body) && (body_assets(body) matches Some(assets)
        && install_url(assets) == Ok::<Seq<char>, ReleaseError>(url))
}

/// Past the release, the job's address is the one that the release service's
/// answer gave for the install archive.
pub proof fn law_play_url_is_from_release(events: Seq<PlayEvent>)
    ensures
        has_archive_url(play_after(events).stage) ==> exists|i: int|
            0 <= i < events.len() && gives_archive_url(#[trigger] events[i], play_after(events).url),
    decreases events.len(),
{
    if events.len() > 0 {
        let before = events.drop_last();
        law_play_url_is_from_release(before);
        let job = play_after(before);
        let url = play_after(events).url;
        if has_archive_url(play_after(events).stage) {
            if has_archive_url(job.stage) {
                let i = choose|i: int|
                    0 <= i < before.len() && gives_archive_url(#[trigger] before[i], job.url);
                assert(before[i] == events[i]);
            } else {
                assert(gives_archive_url(events[events.len() - 1], url));
            }
        }
    }
}

/// Some event is an answer with success.
pub open spec fn answered_with_success(events: Seq<DownloadEvent>) -> bool {
    exists|i: int|
        0 <= i < events.len() && (#[trigger] events[i] matches DownloadEvent::Reply { code, .. }
            && is_success_status(code))
}

/// Some event is a copy into the file that `text` names.
pub open spec fn saved_as(events: Seq<DownloadEvent>, text: Seq<char>) -> bool {
    exists|i: int|
        0 <= i < events.len() && (#[trigger] events[i] matches DownloadEvent::Copied { path, .. }
            && text == "Playlist salvat: "@ + path@)
}

/// More events do not undo an answer or a copy.
proof fn lemma_more_download_events(before: Seq<DownloadEvent>, e: DownloadEvent, text: Seq<char>)
    ensures
        answered_with_success(before) ==> answered_with_success(before.push(e)),
        saved_as(before, text) ==> saved_as(before.push(e), text),
{
    let after = before.push(e);
    if answered_with_success(before) {
        let i = choose|i: int|
            0 <= i < before.len() && (#[trigger] before[i] matches DownloadEvent::Reply { code, .. }
                && is_success_status(code));
        assert(after[i] == before[i]);
    }
    if saved_as(before, text) {
        let i = choose|i: int|
            0 <= i < before.len() && (#[trigger] before[i] matches DownloadEvent::Copied {
                path,
                ..
            } && text == "Playlist salvat: "@ + path@);
        assert(after[i] == before[i]);
    }
}

/// The file is created, and filled, only after an answer with success.
proof fn lemma_download_stages(events: Seq<DownloadEvent>)
    ensures
        download_after(events) is Create || download_after(events) is Copy
            ==> answered_with_success(events),
    decreases events.len(),
{
    if events.len() > 0 {
        let before = events.drop_last();
        lemma_download_stages(before);
        lemma_more_download_events(before, events.last(), Seq::empty());
        assert(before.push(events.last()) =~= events);
        assert(events[events.len() - 1] == events.last());
    }
}

/// The window is told that a playlist is saved only after the server answered with
/// success and the answer was copied into the file that the message names.
pub proof fn law_download_done_means_saved(events: Seq<DownloadEvent>, i: int)
    requires
        0 <= i < download_told(events).len(),
        download_told(events)[i] is Done,
    ensures
        answered_with_success(events),
        saved_as(events, download_told(events)[i]->Done_0),
    decreases events.len(),
{
    let before = events.drop_last();
    let told = download_told(before);
    assert(before.push(events.last()) =~= events);
    assert(events[events.len() - 1] == events.last());
    if i < told.len() {
        law_download_done_means_saved(before, i);
        lemma_more_download_events(before, events.last(), told[i]->Done_0);
    } else {
        let said = download_says(download_after(before), events.last());
        assert(download_told(events)[i] == said[i - told.len()]);
        lemma_download_stages(before);
        lemma_more_download_events(before, events.last(), Seq::empty());
    }
}

/// The program of the player is started only after it was found in an archive
/// that the server gave with success.
pub proof fn law_play_done_means_found(events: Seq<PlayEvent>)
    ensures
        past_request(play_after(events).stage) ==> archive_answered(events),
        play_after(events).stage is Launch ==> player_found(events),
        (exists|i: int| 0 <= i < play_told(events).len() && #[trigger] play_told(events)[i] is Done)
            ==> archive_answered(events) && player_found(events),
    decreases events.len(),
{
    if events.len() > 0 {
        let before = events.drop_last();
        let e = events.last();
        law_play_done_means_found(before);
        assert(events[events.len() - 1] == e);
        if archive_answered(before) {
            let i = choose|i: int|
                0 <= i < before.len() && (#[trigger] before[i] matches PlayEvent::Reply { code, .. }
                    && is_success_status(code));
            assert(events[i] == before[i]);
        }
        if player_found(before) {
            let i = choose|i: int| 0 <= i < before.len() && #[trigger] before[i] is Found;
            assert(events[i] == before[i]);
        }
        let told = play_told(before);
        let said = play_says(play_after(before).stage, e);
        if exists|i: int| 0 <= i < play_told(events).len() && #[trigger] play_told(events)[i] is Done {
            let i = choose|i: int|
                0 <= i < play_told(events).len() && #[trigger] play_told(events)[i] is Done;
            if i < told.len() {
                assert(told[i] is Done);
            } else {
                assert(said[i - told.len()] is Done);
            }
        }
    }
}

/// The archive was answered with success, and the job is not over.
pub open spec fn past_request(stage: PlayStage) -> bool {
    stage is Create || stage is Read || stage is Extract || stage is Find || stage is Launch
}

/// Some event is an answer with success.
pub open spec fn archive_answered(events: Seq<PlayEvent>) -> bool {
    exists|i: int|
        0 <= i < events.len() && (#[trigger] events[i] matches PlayEvent::Reply { code, .. }
            && is_success_status(code))
}

/// Some event is that the program of the player was found.
pub open spec fn player_found(events: Seq<PlayEvent>) -> bool {
    exists|i: int| 0 <= i < events.len() && #[trigger] events[i] is Found
}

/// The messages up to here: the search for the latest version, its download, the
/// progress of that, and behind it `tail`.
pub open spec fn told_in_order(told: Seq<MsgModel>, tail: Seq<MsgModel>) -> bool {
    let rest = told.len() - tail.len();
    &&& rest >= 2
    &&& told[0] == MsgModel::Status("Caut ultima versiune mpv..."@)
    &&& told[1] == MsgModel::Status("Descarc mpv..."@)
    &&& forall|i: int| 2 <= i < rest ==> #[trigger] told[i] is Progress
    &&& told.skip(rest) == tail
}

/// The messages behind the progress once the archive is there.
pub open spec fn extract_tail() -> Seq<MsgModel> {
    seq![MsgModel::Status("Extrag mpv..."@)]
}

/// The messages behind the progress once the player is there.
pub open spec fn launch_tail() -> Seq<MsgModel> {
    extract_tail().push(MsgModel::Status("Pornesc redarea..."@))
}

/// The messages behind the progress once the player is started.
pub open spec fn done_tail() -> Seq<MsgModel> {
    launch_tail().push(MsgModel::Done("Redare pornită."@))
}

/// What has been told at each stage.
spec fn told_at(stage: PlayStage, told: Seq<MsgModel>) -> bool {
    match stage {
        PlayStage::Client => told == Seq::<MsgModel>::empty(),
        PlayStage::Release => told == seq![MsgModel::Status("Caut ultima versiune mpv..."@)],
        PlayStage::MakeDir | PlayStage::Request | PlayStage::Create { .. } => {
            told.len() == 2 && told_in_order(told, Seq::empty())
        },
        PlayStage::Read { .. } => told_in_order(told, Seq::empty()),
        PlayStage::Extract | PlayStage::Find => told_in_order(told, extract_tail()),
        PlayStage::Launch => told_in_order(told, launch_tail()),
        PlayStage::Over => told.len() > 0 && (told.last() is Done ==> told_in_order(
            told,
            done_tail(),
        )),
    }
}

/// Order is kept by a message that goes behind the tail, or that is progress where
/// there is no tail yet.
proof fn lemma_told_more(told: Seq<MsgModel>, tail: Seq<MsgModel>, m: MsgModel)
    requires
        told_in_order(told, tail),
    ensures
        told_in_order(told.push(m), tail.push(m)),
        tail.len() == 0 && m is Progress ==> told_in_order(told.push(m), tail),
{
    let more = told.push(m);
    let rest = told.len() - tail.len();
    assert forall|i: int| 2 <= i < rest implies #[trigger] more[i] is Progress by {
        assert(told[i] is Progress);
    }
    assert(more.skip(rest) =~= told.skip(rest).push(m));
    if tail.len() == 0 && m is Progress {
        assert(more.skip(more.len() as int) =~= tail);
    }
}

/// The job has told at each stage what belongs to it.
proof fn lemma_told_at(events: Seq<PlayEvent>)
    ensures
        told_at(play_after(events).stage, play_told(events)),
    decreases events.len(),
{
    if events.len() > 0 {
        let before = events.drop_last();
        let e = events.last();
        lemma_told_at(before);
        let stage = play_after(before).stage;
        let told = play_told(before);
        let said = play_says(stage, e);
        let none = Seq::<MsgModel>::empty();
        if said.len() == 0 {
            assert(told + said =~= told);
        } else {
            let m = said[0];
            assert(said =~= seq![m]);
            assert(told + said =~= told.push(m));
            match stage {
                PlayStage::Client => {
                    assert(told.push(m) =~= seq![m]);
                },
                PlayStage::Release => {
                    assert(told.push(m).skip(2) =~= none);
                },
                PlayStage::Read { .. } => {
                    lemma_told_more(told, none, m);
                    assert(none.push(m) =~= seq![m]);
                },
                PlayStage::Extract | PlayStage::Find => {
                    lemma_told_more(told, extract_tail(), m);
                },
                PlayStage::Launch => {
                    lemma_told_more(told, launch_tail(), m);
                },
                _ => {},
            }
        }
    }
}

/// A job that ends well has told, in this order and nothing else: that it looks
/// for the latest version, that it downloads it, the progress of that, that it
/// unpacks it, that it starts the player, and that the player is started.
pub proof fn law_play_tells_in_order(events: Seq<PlayEvent>)
    requires
        play_told(events).len() > 0,
        play_told(events).last() is Done,
    ensures
        told_in_order(play_told(events), done_tail()),
{
    lemma_told_at(events);
    law_play_has_one_last_word(events);
}

/// Event `i` is that the player was started.
pub open spec fn player_started_at(events: Seq<PlayEvent>, i: int) -> bool {
    &&& 0 <= i < events.len()
    &&& play_after(events.take(i)).stage is Launch
    &&& events[i] is Ready
}

/// The job says that the player is started exactly if it was started.
pub proof fn law_play_done_means_started(events: Seq<PlayEvent>)
    ensures
        (exists|i: int| 0 <= i < play_told(events).len() && #[trigger] play_told(events)[i] is Done)
            <==> exists|i: int| player_started_at(events, i),
    decreases events.len(),
{
    if events.len() > 0 {
        let before = events.drop_last();
        let last = events.len() - 1;
        law_play_done_means_started(before);
        let told = play_told(before);
        let said = play_says(play_after(before).stage, events.last());
        let all = play_told(events);
        assert(all == told + said);
        assert(events.take(last) =~= before);
        assert forall|i: int| 0 <= i < last implies player_started_at(before, i)
            == #[trigger] player_started_at(events, i) by {
            assert(before.take(i) =~= events.take(i));
        }
        if exists|i: int| 0 <= i < all.len() && #[trigger] all[i] is Done {
            let i = choose|i: int| 0 <= i < all.len() && #[trigger] all[i] is Done;
            if i < told.len() {
                assert(told[i] is Done);
                let j = choose|j: int| player_started_at(before, j);
                assert(player_started_at(events, j));
            } else {
                assert(said[i - told.len()] is Done);
                assert(player_started_at(events, last));
            }
        }
        if exists|i: int| player_started_at(events, i) {
            let j = choose|j: int| player_started_at(events, j);
            if j < last {
                assert(player_started_at(before, j));
                let i = choose|i: int| 0 <= i < told.len() && #[trigger] told[i] is Done;
                assert(all[i] == told[i]);
            } else {
                assert(said[0] is Done);
                assert(all[told.len() as int] == said[0]);
            }
        }
    }
}

/// Every event of a run can happen at its stage.
pub open spec fn play_run_valid(events: Seq<PlayEvent>) -> bool
    decreases events.len(),
{
    events.len() > 0 ==> play_run_valid(events.drop_last()) && play_event_valid(
        play_after(events.drop_last()).stage,
        events.last(),
    )
}

/// The sizes of the pieces in which the archive was read.
pub open spec fn pieces_read(events: Seq<PlayEvent>) -> Seq<u64>
    decreases events.len(),
{
    if events.len() == 0 {
        Seq::empty()
    } else {
        match (play_after(events.drop_last()).stage, events.last()) {
            (PlayStage::Read { .. }, PlayEvent::Chunk(n)) => pieces_read(events.drop_last()).push(n),
            _ => pieces_read(events.drop_last()),
        }
    }
}

/// The size that the answer with the archive announced for it.
pub open spec fn announced_total(events: Seq<PlayEvent>) -> Option<u64>
    decreases events.len(),
{
    if events.len() == 0 {
        None
    } else {
        match (play_after(events.drop_last()).stage, events.last()) {
            (PlayStage::Request, PlayEvent::Reply { code, total }) if is_success_status(
                code,
            ) => total,
            _ => announced_total(events.drop_last()),
        }
    }
}

/// All the bytes of pieces of these sizes.
pub open spec fn bytes_in(sizes: Seq<u64>) -> nat
    decreases sizes.len(),
{
    if sizes.len() == 0 {
        0
    } else {
        bytes_in(sizes.drop_last()) + sizes.last() as nat
    }
}

/// The message is that `current` bytes of `total` are there.
pub open spec fn is_progress(m: MsgModel, current: nat, total: Option<u64>) -> bool {
    m matches MsgModel::Progress { current: c, total: t } && c as nat == current && t == total
}

/// The messages of progress stand behind the first two messages, one for each
/// piece, in order: each has the bytes of its piece and of all before it, and the
/// total. So the message at index `j` has the bytes of the first `j - 1` pieces.
pub open spec fn counts_the_bytes(
    told: Seq<MsgModel>,
    sizes: Seq<u64>,
    total: Option<u64>,
) -> bool {
    &&& sizes.len() > 0 ==> 2 + sizes.len() <= told.len()
    &&& forall|j: int|
        2 <= j < 2 + sizes.len() ==> is_progress(
            #[trigger] told[j],
            bytes_in(sizes.take(j - 1)),
            total,
        )
    &&& forall|j: int|
        0 <= j < told.len() && (#[trigger] told[j] is Progress) ==> 2 <= j < 2 + sizes.len()
}

/// A message that is no progress leaves the count as it is.
proof fn lemma_told_no_progress(
    told: Seq<MsgModel>,
    sizes: Seq<u64>,
    total: Option<u64>,
    m: MsgModel,
)
    requires
        counts_the_bytes(told, sizes, total),
        !(m is Progress),
    ensures
        counts_the_bytes(told.push(m), sizes, total),
{
    let more = told.push(m);
    assert forall|j: int| 2 <= j < 2 + sizes.len() implies is_progress(
        #[trigger] more[j],
        bytes_in(sizes.take(j - 1)),
        total,
    ) by {
        assert(more[j] == told[j]);
    }
    assert forall|j: int| 0 <= j < more.len() && (#[trigger] more[j] is Progress) implies 2 <= j < 2
        + sizes.len() by {
        assert(more[j] == told[j]);
    }
}

/// One more piece and its message go on with the count.
proof fn lemma_told_progress(told: Seq<MsgModel>, sizes: Seq<u64>, total: Option<u64>, n: u64)
    requires
        counts_the_bytes(told, sizes, total),
        told.len() == 2 + sizes.len(),
        bytes_in(sizes) + n <= u64::MAX,
    ensures
        counts_the_bytes(
            told.push(MsgModel::Progress { current: (bytes_in(sizes) + n) as u64, total }),
            sizes.push(n),
            total,
        ),
        bytes_in(sizes.push(n)) == bytes_in(sizes) + n,
{
    let m = MsgModel::Progress { current: (bytes_in(sizes) + n) as u64, total };
    let more = told.push(m);
    let all = sizes.push(n);
    assert(all.drop_last() =~= sizes);
    assert forall|j: int| 2 <= j < 2 + all.len() implies is_progress(
        #[trigger] more[j],
        bytes_in(all.take(j - 1)),
        total,
    ) by {
        if j < told.len() {
            assert(more[j] == told[j]);
            assert(all.take(j - 1) =~= sizes.take(j - 1));
        } else {
            assert(all.take(j - 1) =~= all);
        }
    }
    assert forall|j: int| 0 <= j < more.len() && (#[trigger] more[j] is Progress) implies 2 <= j < 2
        + all.len() by {
        if j < told.len() {
            assert(more[j] == told[j]);
        }
    }
}

/// What is known at each stage of the pieces read up to then.
spec fn counted_at(
    stage: PlayStage,
    told: Seq<MsgModel>,
    sizes: Seq<u64>,
    total: Option<u64>,
) -> bool {
    match stage {
        PlayStage::Client | PlayStage::Release | PlayStage::MakeDir | PlayStage::Request => {
            sizes.len() == 0
        },
        PlayStage::Create { total: t } => sizes.len() == 0 && t == total,
        PlayStage::Read { downloaded, total: t } => {
            &&& t == total
            &&& downloaded as nat == bytes_in(sizes)
            &&& told.len() == 2 + sizes.len()
        },
        _ => true,
    }
}

/// The count is right after every event.
proof fn lemma_counted(events: Seq<PlayEvent>)
    requires
        play_run_valid(events),
    ensures
        counts_the_bytes(play_told(events), pieces_read(events), announced_total(events)),
        counted_at(
            play_after(events).stage,
            play_told(events),
            pieces_read(events),
            announced_total(events),
        ),
    decreases events.len(),
{
    if events.len() > 0 {
        let before = events.drop_last();
        let e = events.last();
        lemma_counted(before);
        lemma_told_at(before);
        let stage = play_after(before).stage;
        let told = play_told(before);
        let sizes = pieces_read(before);
        let total = announced_total(before);
        let said = play_says(stage, e);
        if said.len() == 0 {
            assert(told + said =~= told);
        } else {
            let m = said[0];
            assert(said =~= seq![m]);
            assert(told + said =~= told.push(m));
            match (stage, e) {
                (PlayStage::Read { .. }, PlayEvent::Chunk(n)) => {
                    lemma_told_progress(told, sizes, total, n);
                },
                _ => {
                    lemma_told_no_progress(told, sizes, total, m);
                },
            }
        }
    }
}

/// While the archive is read, the window is told after each piece how many bytes
/// are there: those of that piece and of all before it, out of the total that the
/// server announced. There is no other message of progress.
pub proof fn law_play_progress_counts_the_bytes(events: Seq<PlayEvent>)
    requires
        play_run_valid(events),
    ensures
        counts_the_bytes(play_told(events), pieces_read(events), announced_total(events)),
{
    lemma_counted(events);
}

/// Of two messages of progress the later one never tells of fewer bytes, it tells
/// of more where no piece is empty, and both name the same total.
pub proof fn law_play_progress_grows(events: Seq<PlayEvent>, i: int, j: int)
    requires
        play_run_valid(events),
        0 <= i < j < play_told(events).len(),
        play_told(events)[i] is Progress,
        play_told(events)[j] is Progress,
    ensures
        play_told(events)[i]->current <= play_told(events)[j]->current,
        (forall|k: int|
            0 <= k < pieces_read(events).len() ==> 0 < #[trigger] pieces_read(events)[k])
            ==> play_told(events)[i]->current < play_told(events)[j]->current,
        play_told(events)[i]->total == play_told(events)[j]->total,
{
    lemma_counted(events);
    lemma_bytes_grow(pieces_read(events), i - 1, j - 1);
}

/// More pieces have no fewer bytes, and more where no piece is empty.
proof fn lemma_bytes_grow(sizes: Seq<u64>, a: int, b: int)
    requires
        0 <= a < b <= sizes.len(),
    ensures
        bytes_in(sizes.take(a)) <= bytes_in(sizes.take(b)),
        (forall|k: int| 0 <= k < sizes.len() ==> 0 < #[trigger] sizes[k]) ==> bytes_in(
            sizes.take(a),
        ) < bytes_in(sizes.take(b)),
    decreases b,
{
    assert(sizes.take(b).drop_last() =~= sizes.take(b - 1));
    assert(sizes.take(b).last() == sizes[b - 1]);
    if a < b - 1 {
        lemma_bytes_grow(sizes, a, b - 1);
    }
}

/// One more event of a playlist download leads on from where it was.
proof fn lemma_download_push(events: Seq<DownloadEvent>, e: DownloadEvent)
    ensures
        download_after(events.push(e)) == download_next(download_after(events), e),
        download_told(events.push(e)) == download_told(events) + download_says(
            download_after(events),
            e,
        ),
{
    assert(events.push(e).drop_last() =~= events);
}

/// How a playlist download goes, and what the window is told, when each thing that
/// is asked for is answered: it connects, takes the answer if that reports success,
/// creates the file, copies the answer into it, with or without an announced size,
/// and tells how many bytes there are and where they are. Whatever fails ends it,
/// with words of its own.
pub proof fn law_download_tells_how_it_went(
    code: u16,
    total: Option<u64>,
    bytes: u64,
    path: String,
)
    ensures
        ({
            let started = Seq::<DownloadEvent>::empty();
            let connected = started.push(DownloadEvent::Ready);
            let answered = connected.push(DownloadEvent::Reply { code, total });
            let created = answered.push(DownloadEvent::Ready);
            let copied = created.push(DownloadEvent::Copied { bytes, path });
            let says = MsgModel::Status("Conectare..."@);
            &&& download_after(started) == DownloadStage::Client
            &&& download_told(started) == Seq::<MsgModel>::empty()
            &&& download_told(started.push(DownloadEvent::Failed)) == seq![
                MsgModel::Error("Nu pot inițializa clientul HTTP"@),
            ]
            &&& download_after(connected) == DownloadStage::Request
            &&& download_told(connected) == seq![says]
            &&& download_told(connected.push(DownloadEvent::Failed)) == seq![
                says,
                MsgModel::Error("Cererea HTTP a eșuat"@),
            ]
            &&& if 200 <= code <= 299 {
                &&& download_after(answered) == DownloadStage::Create { total }
                &&& download_told(answered) == seq![says]
                &&& download_told(answered.push(DownloadEvent::Failed)) == seq![
                    says,
                    MsgModel::Error("Nu pot crea fișierul playlist"@),
                ]
                &&& download_after(created) == DownloadStage::Copy { total }
                &&& download_told(created) == seq![says]
                &&& download_told(created.push(DownloadEvent::Failed)) == seq![
                    says,
                    MsgModel::Error("Eroare la copiere"@),
                ]
                &&& download_after(copied) == DownloadStage::Over
                &&& download_told(copied) == seq![
                    says,
                    MsgModel::Progress { current: bytes, total },
                    MsgModel::Done("Playlist salvat: "@ + path@),
                ]
            } else {
                &&& download_after(answered) == DownloadStage::Over
                &&& download_told(answered) == seq![
                    says,
                    MsgModel::Error("HTTP "@ + status_shown(code)),
                ]
            }
        }),
{
    let started = Seq::<DownloadEvent>::empty();
    let connected = started.push(DownloadEvent::Ready);
    let answered = connected.push(DownloadEvent::Reply { code, total });
    let created = answered.push(DownloadEvent::Ready);
    let copied = created.push(DownloadEvent::Copied { bytes, path });
    let says = MsgModel::Status("Conectare..."@);
    lemma_download_push(started, DownloadEvent::Ready);
    lemma_download_push(started, DownloadEvent::Failed);
    lemma_download_push(connected, DownloadEvent::Reply { code, total });
    lemma_download_push(connected, DownloadEvent::Failed);
    lemma_download_push(answered, DownloadEvent::Ready);
    lemma_download_push(answered, DownloadEvent::Failed);
    lemma_download_push(created, DownloadEvent::Copied { bytes, path });
    lemma_download_push(created, DownloadEvent::Failed);
    assert(download_told(started.push(DownloadEvent::Failed)) =~= seq![
        MsgModel::Error("Nu pot inițializa clientul HTTP"@),
    ]);
    assert(download_told(connected) =~= seq![says]);
    assert(download_told(connected.push(DownloadEvent::Failed)) =~= seq![
        says,
        MsgModel::Error("Cererea HTTP a eșuat"@),
    ]);
    if 200 <= code <= 299 {
        assert(download_told(answered) =~= seq![says]);
        assert(download_told(answered.push(DownloadEvent::Failed)) =~= seq![
            says,
            MsgModel::Error("Nu pot crea fișierul playlist"@),
        ]);
        assert(download_told(created) =~= seq![says]);
        assert(download_told(created.push(DownloadEvent::Failed)) =~= seq![
            says,
            MsgModel::Error("Eroare la copiere"@),
        ]);
        assert(download_told(copied) =~= seq![
            says,
            MsgModel::Progress { current: bytes, total },
            MsgModel::Done("Playlist salvat: "@ + path@),
        ]);
    } else {
        assert(download_told(answered) =~= seq![says, MsgModel::Error("HTTP "@ + status_shown(code))]);
    }
}

/// A copy that was waited for, of however many bytes and whatever size was
/// announced, is told as progress of those bytes and as the end in that file.
pub proof fn law_copied_playlist_is_told(events: Seq<DownloadEvent>, bytes: u64, path: String)
    requires
        download_after(events) is Copy,
    ensures
        ({
            let all = events.push(DownloadEvent::Copied { bytes, path });
            &&& download_after(all) == DownloadStage::Over
            &&& download_told(all) == download_told(events) + seq![
                MsgModel::Progress { current: bytes, total: download_after(events)->Copy_total },
                MsgModel::Done("Playlist salvat: "@ + path@),
            ]
        }),
{
    lemma_download_push(events, DownloadEvent::Copied { bytes, path });
}

/// The size with which a copy is waited for is the one that an answer with success
/// announced.
pub proof fn law_download_total_is_the_announced_one(events: Seq<DownloadEvent>)
    ensures
        download_after(events) matches DownloadStage::Create { total } ==> exists|i: int|
            0 <= i < events.len() && (#[trigger] events[i] matches DownloadEvent::Reply {
                code,
                total: t,
            } && 200 <= code <= 299 && t == total),
        download_after(events) matches DownloadStage::Copy { total } ==> exists|i: int|
            0 <= i < events.len() && (#[trigger] events[i] matches DownloadEvent::Reply {
                code,
                total: t,
            } && 200 <= code <= 299 && t == total),
    decreases events.len(),
{
    if events.len() > 0 {
        let before = events.drop_last();
        law_download_total_is_the_announced_one(before);
        assert(events[events.len() - 1] == events.last());
        assert forall|i: int| 0 <= i < before.len() implies #[trigger] before[i] == events[i] by {}
    }
}

/// The event is one with which a playlist download cannot go on: something failed,
/// or the server answered without success.
pub open spec fn is_setback(event: DownloadEvent) -> bool {
    match event {
        DownloadEvent::Failed => true,
        DownloadEvent::Reply { code, .. } => code < 200 || 299 < code,
        _ => false,
    }
}

/// A playlist download tells of an error only after a setback.
pub proof fn law_download_error_has_a_cause(events: Seq<DownloadEvent>, i: int)
    requires
        0 <= i < download_told(events).len(),
        download_told(events)[i] is Error,
    ensures
        exists|j: int| 0 <= j < events.len() && is_setback(#[trigger] events[j]),
    decreases events.len(),
{
    let before = events.drop_last();
    let told = download_told(before);
    if i < told.len() {
        law_download_error_has_a_cause(before, i);
        let j = choose|j: int| 0 <= j < before.len() && is_setback(#[trigger] before[j]);
        assert(is_setback(events[j]));
    } else {
        assert(download_told(events)[i] == download_says(download_after(before), events.last())[i
            - told.len()]);
        assert(is_setback(events[events.len() - 1]));
    }
}

/// An event that is no answer to what a playlist download asked for changes nothing
/// and is not told.
pub proof fn law_download_ignores_other_events(stage: DownloadStage, event: DownloadEvent)
    requires
        match stage {
            DownloadStage::Client | DownloadStage::Create { .. } => event is Reply
                || event is Copied,
            DownloadStage::Request => event is Ready || event is Copied,
            DownloadStage::Copy { .. } => event is Ready || event is Reply,
            DownloadStage::Over => true,
        },
    ensures
        download_next(stage, event) == stage,
        download_says(stage, event) == Seq::<MsgModel>::empty(),
{
}

/// How the download of a file goes when each thing that is asked for is answered:
/// an answer with success leads to the file, the file to the copy, with the size
/// that was announced, and the copy to the end, with its bytes; what fails is
/// reported with the address or the file, where that says more.
pub proof fn law_file_download_tells_how_it_went(
    code: u16,
    total: Option<u64>,
    bytes: u64,
    named: String,
    url: Seq<char>,
    path: Seq<char>,
)
    ensures
        ({
            let after = |stage: DownloadStage, event: DownloadEvent|
                save_next(stage, event, url, path);
            &&& after(DownloadStage::Request, DownloadEvent::Failed) == SaveModel::Failed(
                "Descărcarea a eșuat: "@ + url,
            )
            &&& after(DownloadStage::Request, DownloadEvent::Reply { code, total }) == if 200 <= code
                <= 299 {
                SaveModel::Next(DownloadStage::Create { total })
            } else {
                SaveModel::Failed("HTTP "@ + status_shown(code) + " la "@ + url)
            }
            &&& after(DownloadStage::Create { total }, DownloadEvent::Failed) == SaveModel::Failed(
                "Nu pot crea fișier: "@ + path,
            )
            &&& after(DownloadStage::Create { total }, DownloadEvent::Ready) == SaveModel::Next(
                DownloadStage::Copy { total },
            )
            &&& after(DownloadStage::Copy { total }, DownloadEvent::Failed) == SaveModel::Failed(
                "Eroare la copiere stream"@,
            )
            &&& after(DownloadStage::Copy { total }, DownloadEvent::Copied { bytes, path: named })
                == SaveModel::Finished(MsgModel::Progress { current: bytes, total })
        }),
{
}

/// One more event of the job that plays a playlist leads on from where it was.
proof fn lemma_play_push(events: Seq<PlayEvent>, e: PlayEvent)
    ensures
        play_after(events.push(e)) == play_next(play_after(events), e),
        play_told(events.push(e)) == play_told(events) + play_says(play_after(events).stage, e),
{
    assert(events.push(e).drop_last() =~= events);
}

/// The events of a job that installs the player, up to the pieces of the archive:
/// all went well.
pub open spec fn installing(
    body: Option<String>,
    code: u16,
    total: Option<u64>,
    sizes: Seq<u64>,
) -> Seq<PlayEvent> {
    seq![
        PlayEvent::Ready,
        PlayEvent::Body(body),
        PlayEvent::Ready,
        PlayEvent::Reply { code, total },
        PlayEvent::Ready,
    ] + sizes.map_values(|n: u64| PlayEvent::Chunk(n))
}

/// The messages of a job that installs the player, up to the pieces of the archive.
pub open spec fn installing_told(total: Option<u64>, sizes: Seq<u64>) -> Seq<MsgModel> {
    seq![
        MsgModel::Status("Caut ultima versiune mpv..."@),
        MsgModel::Status("Descarc mpv..."@),
    ] + Seq::new(
        sizes.len(),
        |i: int| MsgModel::Progress { current: bytes_in(sizes.take(i + 1)) as u64, total },
    )
}

/// Up to the pieces of the archive a job that goes well has told what belongs to
/// it.
proof fn lemma_installing(
    body: Option<String>,
    code: u16,
    total: Option<u64>,
    sizes: Seq<u64>,
    url: Seq<char>,
)
    requires
        gives_archive_url(PlayEvent::Body(body), url),
        200 <= code <= 299,
        bytes_in(sizes) <= u64::MAX,
    ensures
        play_after(installing(body, code, total, sizes)) == (PlayModel {
            stage: PlayStage::Read { downloaded: bytes_in(sizes) as u64, total },
            url,
        }),
        play_told(installing(body, code, total, sizes)) == installing_told(total, sizes),
    decreases sizes.len(),
{
    if sizes.len() == 0 {
        let e0 = Seq::<PlayEvent>::empty();
        let e1 = e0.push(PlayEvent::Ready);
        let e2 = e1.push(PlayEvent::Body(body));
        let e3 = e2.push(PlayEvent::Ready);
        let e4 = e3.push(PlayEvent::Reply { code, total });
        let e5 = e4.push(PlayEvent::Ready);
        lemma_play_push(e0, PlayEvent::Ready);
        lemma_play_push(e1, PlayEvent::Body(body));
        lemma_play_push(e2, PlayEvent::Ready);
        lemma_play_push(e3, PlayEvent::Reply { code, total });
        lemma_play_push(e4, PlayEvent::Ready);
        assert(installing(body, code, total, sizes) =~= e5);
        assert(play_told(e5) =~= installing_told(total, sizes));
    } else {
        let fewer = sizes.drop_last();
        let n = sizes.last();
        lemma_installing(body, code, total, fewer, url);
        let before = installing(body, code, total, fewer);
        lemma_play_push(before, PlayEvent::Chunk(n));
        assert(installing(body, code, total, sizes) =~= before.push(PlayEvent::Chunk(n)));
        assert(sizes.take(sizes.len() as int) =~= sizes);
        let told = installing_told(total, sizes);
        let less = installing_told(total, fewer);
        assert forall|i: int| 0 <= i < fewer.len() implies #[trigger] fewer.take(i + 1)
            == sizes.take(i + 1) by {
            assert(fewer.take(i + 1) =~= sizes.take(i + 1));
        }
        assert forall|i: int| 0 <= i < less.len() implies less[i] == told[i] by {
            if i >= 2 {
                assert(fewer.take(i - 2 + 1) == sizes.take(i - 2 + 1));
            }
        }
        assert(told =~= less.push(
            MsgModel::Progress { current: bytes_in(sizes) as u64, total },
        ));
    }
}

/// A job that installs the player and plays a playlist, and for which all goes
/// well, goes through its stages, takes the archive from the address that the
/// release gave, and tells what it does, its progress piece by piece and the end.
pub proof fn law_play_that_goes_well(
    body: Option<String>,
    code: u16,
    total: Option<u64>,
    sizes: Seq<u64>,
    url: Seq<char>,
)
    requires
        gives_archive_url(PlayEvent::Body(body), url),
        200 <= code <= 299,
        bytes_in(sizes) <= u64::MAX,
    ensures
        ({
            let read = installing(body, code, total, sizes);
            let ended = read.push(PlayEvent::BodyEnd);
            let unpacked = ended.push(PlayEvent::Ready);
            let found = unpacked.push(PlayEvent::Found);
            let started = found.push(PlayEvent::Ready);
            &&& play_after(read).stage == (PlayStage::Read {
                downloaded: bytes_in(sizes) as u64,
                total,
            })
            &&& play_after(ended).stage == PlayStage::Extract
            &&& play_after(unpacked).stage == PlayStage::Find
            &&& play_after(found).stage == PlayStage::Launch
            &&& play_after(started).stage == PlayStage::Over
            &&& play_after(read).url == url
            &&& play_told(started) == installing_told(total, sizes) + seq![
                MsgModel::Status("Extrag mpv..."@),
                MsgModel::Status("Pornesc redarea..."@),
                MsgModel::Done("Redare pornită."@),
            ]
            &&& play_told(unpacked.push(PlayEvent::NotFound)) == installing_told(total, sizes)
                + seq![
                MsgModel::Status("Extrag mpv..."@),
                MsgModel::Error("Nu găsesc mpv.exe după extragere"@),
            ]
        }),
{
    lemma_installing(body, code, total, sizes, url);
    let read = installing(body, code, total, sizes);
    let ended = read.push(PlayEvent::BodyEnd);
    let unpacked = ended.push(PlayEvent::Ready);
    let found = unpacked.push(PlayEvent::Found);
    let started = found.push(PlayEvent::Ready);
    lemma_play_push(read, PlayEvent::BodyEnd);
    lemma_play_push(ended, PlayEvent::Ready);
    lemma_play_push(unpacked, PlayEvent::Found);
    lemma_play_push(unpacked, PlayEvent::NotFound);
    lemma_play_push(found, PlayEvent::Ready);
    assert(play_told(started) =~= installing_told(total, sizes) + seq![
        MsgModel::Status("Extrag mpv..."@),
        MsgModel::Status("Pornesc redarea..."@),
        MsgModel::Done("Redare pornită."@),
    ]);
    assert(play_told(unpacked.push(PlayEvent::NotFound)) =~= installing_told(total, sizes) + seq![
        MsgModel::Status("Extrag mpv..."@),
        MsgModel::Error("Nu găsesc mpv.exe după extragere"@),
    ]);
}

/// What fails ends the job that plays a playlist, and is told with the reason;
/// where it is the unpacking, that is said as well.
pub proof fn law_play_failure_is_told(events: Seq<PlayEvent>, reason: String)
    requires
        !(play_after(events).stage is Over),
        !(play_after(events).stage is Find),
    ensures
        ({
            let all = events.push(PlayEvent::Failed(reason));
            &&& play_after(all).stage == PlayStage::Over
            &&& play_told(all) == play_told(events).push(
                MsgModel::Error(
                    if play_after(events).stage is Extract {
                        "Eroare extragere: "@ + reason@
                    } else {
                        reason@
                    },
                ),
            )
        }),
{
    lemma_play_push(events, PlayEvent::Failed(reason));
    let all = events.push(PlayEvent::Failed(reason));
    let said = play_says(play_after(events).stage, PlayEvent::Failed(reason));
    assert(said.len() == 1);
    assert(play_told(all) =~= play_told(events).push(said[0]));
}

/// What the job that plays a playlist makes of the release service's answer: it
/// gives up on one that is no JSON document, that lists no files or whose files
/// have no archive to install from, each in its own words; otherwise it goes on to
/// download that archive.
pub proof fn law_play_takes_the_release(body: Option<String>)
    ensures
        ({
            let asked = seq![PlayEvent::Ready];
            let answered = seq![PlayEvent::Ready, PlayEvent::Body(body)];
            let says = MsgModel::Status("Caut ultima versiune mpv..."@);
            let doc = match body {
                Some(text) => json_read(text@),
                None => None,
            };
            &&& play_after(asked).stage == PlayStage::Release
            &&& play_told(asked) == seq![says]
            &&& match doc {
                None => play_after(answered).stage is Over && play_told(answered) == seq![
                    says,
                    MsgModel::Error("error decoding response body"@),
                ],
                Some(t) => match assets_in(t) {
                    None => play_after(answered).stage is Over && play_told(answered) == seq![
                        says,
                        MsgModel::Error("Nu pot citi assets din release"@),
                    ],
                    Some(list) => match install_url(Some(list)) {
                        Ok(url) => play_after(answered) == (PlayModel {
                            stage: PlayStage::MakeDir,
                            url,
                        }) && play_told(answered) == seq![
                            says,
                            MsgModel::Status("Descarc mpv..."@),
                        ],
                        Err(_) => play_after(answered).stage is Over && play_told(answered) == seq![
                            says,
                            MsgModel::Error("Nu găsesc arhiva mpv-x86_64 în release"@),
                        ],
                    },
                },
            }
        }),
{
    let none = Seq::<PlayEvent>::empty();
    let asked = none.push(PlayEvent::Ready);
    let answered = asked.push(PlayEvent::Body(body));
    lemma_play_push(none, PlayEvent::Ready);
    lemma_play_push(asked, PlayEvent::Body(body));
    assert(asked =~= seq![PlayEvent::Ready]);
    assert(answered =~= seq![PlayEvent::Ready, PlayEvent::Body(body)]);
    let says = MsgModel::Status("Caut ultima versiune mpv..."@);
    assert(play_told(asked) =~= seq![says]);
    let said = play_says(play_after(asked).stage, PlayEvent::Body(body));
    if let Some(text) = body {
        if let Some(t) = json_read(text@) {
            if let Some(list) = assets_in(t) {
                law_install_is_first_install_archive(list);
            }
        }
    }
    assert(said.len() == 1);
    assert(play_told(answered) =~= seq![says, said[0]]);
}

/// An answer without success, where the archive was asked for, ends the job that
/// plays a playlist, and is told with its code.
pub proof fn law_play_needs_success(events: Seq<PlayEvent>, code: u16, total: Option<u64>)
    requires
        play_after(events).stage is Request,
    ensures
        ({
            let all = events.push(PlayEvent::Reply { code, total });
            if 200 <= code <= 299 {
                &&& play_after(all).stage == PlayStage::Create { total }
                &&& play_told(all) == play_told(events)
            } else {
                &&& play_after(all).stage == PlayStage::Over
                &&& play_told(all) == play_told(events).push(
                    MsgModel::Error("HTTP "@ + status_shown(code) + " la mpv"@),
                )
            }
        }),
{
    lemma_play_push(events, PlayEvent::Reply { code, total });
    let all = events.push(PlayEvent::Reply { code, total });
    if 200 <= code <= 299 {
        assert(play_told(all) =~= play_told(events));
    } else {
        assert(play_told(all) =~= play_told(events).push(
            MsgModel::Error("HTTP "@ + status_shown(code) + " la mpv"@),
        ));
    }
}

/// The event is one with which the job that plays a playlist cannot go on:
/// something failed, the player was not found, the server answered without
/// success, or the release has no archive to install from.
pub open spec fn is_play_setback(event: PlayEvent) -> bool {
    match event {
        PlayEvent::Failed(_) | PlayEvent::NotFound => true,
        PlayEvent::Reply { code, .. } => code < 200 || 299 < code,
        PlayEvent::Body(_) => forall|url: Seq<char>| !#[trigger] gives_archive_url(event, url),
        _ => false,
    }
}

/// The job that plays a playlist tells of an error only after a setback.
pub proof fn law_play_error_has_a_cause(events: Seq<PlayEvent>, i: int)
    requires
        0 <= i < play_told(events).len(),
        play_told(events)[i] is Error,
    ensures
        exists|j: int| 0 <= j < events.len() && is_play_setback(#[trigger] events[j]),
    decreases events.len(),
{
    let before = events.drop_last();
    let told = play_told(before);
    if i < told.len() {
        law_play_error_has_a_cause(before, i);
        let j = choose|j: int| 0 <= j < before.len() && is_play_setback(#[trigger] before[j]);
        assert(is_play_setback(events[j]));
    } else {
        let said = play_says(play_after(before).stage, events.last());
        assert(play_told(events)[i] == said[i - told.len()]);
        assert(is_play_setback(events[events.len() - 1]));
    }
}

/// An event that is no answer to what the job that plays a playlist asked for
/// changes nothing and is not told.
pub proof fn law_play_ignores_other_events(job: PlayModel, event: PlayEvent)
    requires
        match job.stage {
            PlayStage::Client | PlayStage::MakeDir | PlayStage::Create { .. } | PlayStage::Extract
            | PlayStage::Launch => !(event is Ready) && !(event is Failed),
            PlayStage::Release => !(event is Body) && !(event is Failed),
            PlayStage::Request => !(event is Reply) && !(event is Failed),
            PlayStage::Read { .. } => !(event is Chunk) && !(event is BodyEnd) && !(event is Failed),
            PlayStage::Find => !(event is Found) && !(event is NotFound),
            PlayStage::Over => true,
        },
    ensures
        play_next(job, event) == job,
        play_says(job.stage, event) == Seq::<MsgModel>::empty(),
{
}

/// What the job that plays a playlist does with the answers that are told in no
/// words: it goes on, with the address that it has and the size that was announced.
pub proof fn law_play_goes_on_in_silence(events: Seq<PlayEvent>)
    requires
        play_after(events).stage is MakeDir || play_after(events).stage is Create
            || play_after(events).stage is Extract,
    ensures
        ({
            let all = events.push(PlayEvent::Ready);
            &&& play_after(all).url == play_after(events).url
            &&& play_told(all) == play_told(events)
            &&& match play_after(events).stage {
                PlayStage::MakeDir => play_after(all).stage == PlayStage::Request,
                PlayStage::Create { total } => play_after(all).stage == (PlayStage::Read {
                    downloaded: 0,
                    total,
                }),
                _ => play_after(all).stage == PlayStage::Find,
            }
        }),
{
    lemma_play_push(events, PlayEvent::Ready);
    assert(play_told(events.push(PlayEvent::Ready)) =~= play_told(events));
}

/// An event that is no answer to what the download of a file asked for changes
/// nothing.
pub proof fn law_file_download_ignores_other_events(
    stage: DownloadStage,
    event: DownloadEvent,
    url: Seq<char>,
    path: Seq<char>,
)
    requires
        match stage {
            DownloadStage::Request => event is Ready || event is Copied,
            DownloadStage::Create { .. } => event is Reply || event is Copied,
            DownloadStage::Copy { .. } => event is Ready || event is Reply,
            DownloadStage::Client | DownloadStage::Over => true,
        },
    ensures
        save_next(stage, event, url, path) == SaveModel::Next(stage),
{
}

} // verus!
