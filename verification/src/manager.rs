//! The manager: the list of subscriptions, the selection, the forms, the job in
//! the background and the line that tells the user how things stand.

use vstd::prelude::*;
use vstd::string::*;

use crate::clock::{now, Timestamp};
use crate::ident::{is_random_id, new_id};
use crate::jobs::{
    download_after, download_told, ends_with_last_word, is_last_word,
    law_download_has_one_last_word, law_play_has_one_last_word, msgs_model, play_after, play_told,
    DownloadEvent, JobMsg, MsgModel, PlayEvent,
};
use crate::release::text_model;
use crate::subscription::{
    build_playlist_url, playlist_file, playlist_file_name, playlist_url, SubModel, SubType,
    SubTypeModel, Subscription,
};
use crate::text::{
    ascii_lower, contains, decimal, decimal_text, has_part, is_blank, is_core,
    law_blank_text_is_trimmed_away, law_lower_case_keeps_parts, law_lower_case_of_ascii,
    law_part_stands_between, law_trimmed_is_the_core, law_trimming_twice, lower_pieces, lowercase,
    occurs_at, same_letter, trim, trimmed,
};

verus! {

/// The directory of the manager, inside the user's configuration directory.
pub const BASE_DIR: &'static str = "iptv-manager";

/// The directory of the playlists, inside the manager's.
pub const PLAYLISTS_DIR: &'static str = "playlists";

/// The directory of the player, inside the manager's.
pub const MPV_DIR: &'static str = "mpv";

/// The file of the subscriptions, inside the manager's directory.
pub const DATA_FILE: &'static str = "subscriptions.json";

/// What is kept on disk.
pub struct AppData {
    pub subs: Vec<Subscription>,
}

impl Default for AppData {
    /// No subscriptions.
    fn default() -> (r: AppData)
        ensures
            r.subs@ == Seq::<Subscription>::empty(),
    {
        AppData { subs: Vec::new() }
    }
}

/// The fields of the forms.
pub struct Form {
    pub name: String,
    pub url: String,
    pub host: String,
    pub user: String,
    pub pass: String,
    pub portal: String,
    pub mac: String,
    pub mag_pass: String,
}

/// The dialogs in which subscriptions are added, one for each kind.
#[derive(PartialEq, Eq, Structural, Clone, Copy, Debug)]
pub enum Dialog {
    M3u,
    Xtream,
    Mag,
}

/// The manager.
pub struct App {
    pub data: AppData,
    pub selected_id: Option<String>,
    pub status: String,
    pub progress_current: u64,
    pub progress_total: Option<u64>,
    /// A job is running.
    pub job: bool,
    pub show_m3u: bool,
    pub show_xt: bool,
    pub show_mag: bool,
    pub form: Form,
}

/// A playlist to download: where from, and to which file among the playlists.
pub struct PlaylistOrder {
    pub url: String,
    pub file: String,
}

// ------------------------------------------------------------------- models

/// A [`Form`] in the mathematical model.
pub struct FormModel {
    pub name: Seq<char>,
    pub url: Seq<char>,
    pub host: Seq<char>,
    pub user: Seq<char>,
    pub pass: Seq<char>,
    pub portal: Seq<char>,
    pub mac: Seq<char>,
    pub mag_pass: Seq<char>,
}

impl View for Form {
    type V = FormModel;

    open spec fn view(&self) -> FormModel {
        FormModel {
            name: self.name@,
            url: self.url@,
            host: self.host@,
            user: self.user@,
            pass: self.pass@,
            portal: self.portal@,
            mac: self.mac@,
            mag_pass: self.mag_pass@,
        }
    }
}

/// A form with nothing in it.
pub open spec fn empty_form() -> FormModel {
    FormModel {
        name: Seq::empty(),
        url: Seq::empty(),
        host: Seq::empty(),
        user: Seq::empty(),
        pass: Seq::empty(),
        portal: Seq::empty(),
        mac: Seq::empty(),
        mag_pass: Seq::empty(),
    }
}

/// Subscriptions in the model.
pub open spec fn subs_model(subs: Seq<Subscription>) -> Seq<SubModel> {
    subs.map_values(|s: Subscription| s@)
}

/// An [`App`] in the mathematical model.
#[verifier::ext_equal]
pub struct AppModel {
    pub subs: Seq<SubModel>,
    pub selected: Option<Seq<char>>,
    pub status: Seq<char>,
    pub current: u64,
    pub total: Option<u64>,
    pub busy: bool,
    pub show_m3u: bool,
    pub show_xt: bool,
    pub show_mag: bool,
    pub form: FormModel,
}

impl View for App {
    type V = AppModel;

    open spec fn view(&self) -> AppModel {
        AppModel {
            subs: subs_model(self.data.subs@),
            selected: text_model(self.selected_id),
            status: self.status@,
            current: self.progress_current,
            total: self.progress_total,
            busy: self.job,
            show_m3u: self.show_m3u,
            show_xt: self.show_xt,
            show_mag: self.show_mag,
            form: self.form@,
        }
    }
}

/// Every subscription was added at a moment of the calendar.
pub open spec fn moments_valid(subs: Seq<SubModel>) -> bool {
    forall|i: int| 0 <= i < subs.len() ==> (#[trigger] subs[i]).added.valid()
}

impl AppModel {
    /// What holds of a manager at any time.
    pub open spec fn well_formed(self) -> bool {
        moments_valid(self.subs)
    }

    /// The manager with another line for the user.
    pub open spec fn with_status(self, status: Seq<char>) -> AppModel {
        AppModel { status, ..self }
    }

    /// The manager without progress.
    pub open spec fn without_progress(self) -> AppModel {
        AppModel { current: 0, total: None, ..self }
    }

    /// The manager with empty forms.
    pub open spec fn with_empty_form(self) -> AppModel {
        AppModel { form: empty_form(), ..self }
    }

    /// The manager with a dialog shown or not.
    pub open spec fn with_dialog(self, dialog: Dialog, shown: bool) -> AppModel {
        match dialog {
            Dialog::M3u => AppModel { show_m3u: shown, ..self },
            Dialog::Xtream => AppModel { show_xt: shown, ..self },
            Dialog::Mag => AppModel { show_mag: shown, ..self },
        }
    }
}

// ----------------------------------------------------------- specifications

/// The manager at its start.
pub open spec fn app_start(subs: Seq<SubModel>) -> AppModel {
    AppModel {
        subs,
        selected: None,
        status: "Gata"@,
        current: 0,
        total: None,
        busy: false,
        show_m3u: false,
        show_xt: false,
        show_mag: false,
        form: empty_form(),
    }
}

/// Some subscription has this identifier.
pub open spec fn has_id(subs: Seq<SubModel>, id: Seq<char>) -> bool {
    exists|i: int| 0 <= i < subs.len() && (#[trigger] subs[i]).id == id
}

/// The first subscription with this identifier.
pub open spec fn sub_with_id(subs: Seq<SubModel>, id: Seq<char>) -> Option<SubModel>
    decreases subs.len(),
{
    if subs.len() == 0 {
        None
    } else if subs[0].id == id {
        Some(subs[0])
    } else {
        sub_with_id(subs.drop_first(), id)
    }
}

/// The subscriptions that do not have this identifier, in their order.
pub open spec fn without_id(subs: Seq<SubModel>, id: Seq<char>) -> Seq<SubModel> {
    subs.filter(|s: SubModel| s.id != id)
}

/// The selected subscription.
pub open spec fn selected_in(app: AppModel) -> Option<SubModel> {
    match app.selected {
        Some(id) => sub_with_id(app.subs, id),
        None => None,
    }
}

/// The manager after a job was asked for: one that is busy only says so.
pub open spec fn job_asked(app: AppModel) -> AppModel {
    if app.busy {
        app.with_status("Există deja o acțiune în desfășurare."@)
    } else {
        AppModel { busy: true, ..app.without_progress() }
    }
}

/// The manager after the selected playlist was asked for.
pub open spec fn download_asked(app: AppModel) -> AppModel {
    match selected_in(app) {
        None => app.with_status("Selectează un abonament."@),
        Some(_) => job_asked(app.with_status("Descarc playlist..."@)),
    }
}

/// The manager after the selected playlist was to be played.
pub open spec fn play_asked(app: AppModel, exists: bool) -> AppModel {
    match selected_in(app) {
        None => app.with_status("Selectează un abonament."@),
        Some(_) => if exists {
            job_asked(app)
        } else {
            app.with_status("Playlist-ul nu există. Apasă „Descarcă” întâi."@)
        },
    }
}

/// The manager after the selected subscription was to be deleted, before the
/// list is saved.
pub open spec fn deletion_asked(app: AppModel) -> AppModel {
    match app.selected {
        None => app.with_status("Selectează un abonament."@),
        Some(id) => {
            let after = AppModel { selected: None, subs: without_id(app.subs, id), ..app };
            if has_id(app.subs, id) {
                after
            } else {
                after.with_status("Nu am găsit abonamentul pentru ștergere."@)
            }
        },
    }
}

/// The manager after a click on the button that deletes, before the list is
/// saved: one that is busy stays as it is.
pub open spec fn delete_pressed(app: AppModel) -> AppModel {
    if app.busy {
        app
    } else {
        deletion_asked(app)
    }
}

/// There is something to delete.
pub open spec fn can_delete(app: AppModel) -> bool {
    app.selected matches Some(id) && has_id(app.subs, id)
}

/// The line for a list that could not be saved.
pub open spec fn not_saved(reason: Seq<char>) -> Seq<char> {
    "Eroare la salvare: "@ + reason
}

/// The manager after a list without the deleted subscription was saved, or was
/// not for the reason given.
pub open spec fn deletion_saved(app: AppModel, failure: Option<Seq<char>>) -> AppModel {
    match failure {
        Some(reason) => app.with_status(not_saved(reason)),
        None => app.with_status("Abonament șters."@),
    }
}

/// The manager with a subscription of the form's name added at the end, before
/// the list is saved.
pub open spec fn addition_asked(
    app: AppModel,
    kind: SubTypeModel,
    id: Seq<char>,
    added: Timestamp,
) -> AppModel {
    if trimmed(app.form.name).len() == 0 {
        app.with_status("Numele este obligatoriu."@)
    } else {
        AppModel {
            subs: app.subs.push(SubModel { id, name: trimmed(app.form.name), kind, added }),
            ..app
        }
    }
}

/// The manager after a list with the new subscription was saved, or was not for
/// the reason given.
pub open spec fn addition_saved(
    app: AppModel,
    name: Seq<char>,
    failure: Option<Seq<char>>,
) -> AppModel {
    match failure {
        Some(reason) => app.with_status(not_saved(reason)),
        None => app.with_status("Adăugat: "@ + name).with_empty_form(),
    }
}

/// The subscription that a form describes, or the line that says what is missing
/// in it. Its name is looked at elsewhere.
pub open spec fn described(dialog: Dialog, form: FormModel) -> Result<SubTypeModel, Seq<char>> {
    match dialog {
        Dialog::M3u => if trimmed(form.url).len() == 0 {
            Err("URL M3U este obligatoriu."@)
        } else {
            Ok(SubTypeModel::M3u { url: trimmed(form.url) })
        },
        Dialog::Xtream => if trimmed(form.host).len() == 0 || trimmed(form.user).len() == 0
            || trimmed(form.pass).len() == 0 {
            Err("Completează toate câmpurile."@)
        } else {
            Ok(
                SubTypeModel::Xtream {
                    host: trimmed(form.host),
                    username: trimmed(form.user),
                    password: trimmed(form.pass),
                },
            )
        },
        Dialog::Mag => if trimmed(form.portal).len() == 0 || trimmed(form.mac).len() == 0 {
            Err("Portal URL și MAC sunt obligatorii."@)
        } else {
            Ok(
                SubTypeModel::Mag {
                    portal_url: trimmed(form.portal),
                    mac: trimmed(form.mac),
                    password: if trimmed(form.mag_pass).len() == 0 {
                        None
                    } else {
                        Some(trimmed(form.mag_pass))
                    },
                },
            )
        },
    }
}

/// The dialog is left with something to add.
pub open spec fn dialog_adds(app: AppModel, dialog: Dialog, add: bool) -> bool {
    add && described(dialog, app.form) is Ok && trimmed(app.form.name).len() > 0
}

/// The manager after buttons of a dialog were pressed, before anything is added:
/// the dialog is gone, and a form that lacks something is said to.
pub open spec fn dialog_left(app: AppModel, dialog: Dialog, cancel: bool, add: bool) -> AppModel {
    let left = if cancel || add {
        app.with_dialog(dialog, false)
    } else {
        app
    };
    if add {
        match described(dialog, app.form) {
            Ok(_) => left,
            Err(missing) => left.with_status(missing),
        }
    } else {
        left
    }
}

/// The last line with which a job reported an error.
pub open spec fn last_error(msgs: Seq<MsgModel>) -> Option<Seq<char>>
    decreases msgs.len(),
{
    if msgs.len() == 0 {
        None
    } else {
        match msgs.last() {
            MsgModel::Error(e) => Some(e),
            _ => last_error(msgs.drop_last()),
        }
    }
}

/// The last line with which a job reported that it is through.
pub open spec fn last_done(msgs: Seq<MsgModel>) -> Option<Seq<char>>
    decreases msgs.len(),
{
    if msgs.len() == 0 {
        None
    } else {
        match msgs.last() {
            MsgModel::Done(s) => Some(s),
            _ => last_done(msgs.drop_last()),
        }
    }
}

/// The manager after what a job reported of its doing and of its progress.
pub open spec fn kept_informed(app: AppModel, msgs: Seq<MsgModel>) -> AppModel
    decreases msgs.len(),
{
    if msgs.len() == 0 {
        app
    } else {
        let before = kept_informed(app, msgs.drop_last());
        match msgs.last() {
            MsgModel::Status(s) => before.with_status(s),
            MsgModel::Progress { current, total } => AppModel { current, total, ..before },
            _ => before,
        }
    }
}

/// The manager after the messages of its job. An error ends the job, and counts
/// for more than the message that it is through, which ends it too.
pub open spec fn polled(app: AppModel, msgs: Seq<MsgModel>) -> AppModel {
    if !app.busy {
        app
    } else {
        let informed = kept_informed(app, msgs);
        match last_error(msgs) {
            Some(e) => AppModel {
                busy: false,
                ..informed.with_status("Eroare: "@ + e).without_progress()
            },
            None => match last_done(msgs) {
                Some(s) => AppModel { busy: false, ..informed.with_status(s).without_progress() },
                None => informed,
            },
        }
    }
}

/// What stands in the progress bar, if there is one.
pub open spec fn progress_shown(app: AppModel) -> Option<Seq<char>> {
    if !app.busy {
        None
    } else {
        let mb = |n: u64| decimal(n as nat / 1_000_000);
        match app.total {
            Some(t) => Some(mb(app.current) + " / "@ + mb(t) + " MB"@),
            None => if app.current > 0 {
                Some(mb(app.current) + " MB"@)
            } else {
                None
            },
        }
    }
}

/// The line for the user is shown as an error.
pub open spec fn shown_as_error(status: Seq<char>) -> bool {
    has_part(lowercase(status), "eroare"@)
}

// ---------------------------------------------------------------- functions

/// A failure in the model.
pub open spec fn failure_model(saved: Result<(), String>) -> Option<Seq<char>> {
    match saved {
        Ok(_) => None,
        Err(e) => Some(e@),
    }
}

impl Form {
    /// A form with nothing in it.
    pub fn new() -> (r: Form)
        ensures
            r@ == empty_form(),
    {
        Form {
            name: String::new(),
            url: String::new(),
            host: String::new(),
            user: String::new(),
            pass: String::new(),
            portal: String::new(),
            mac: String::new(),
            mag_pass: String::new(),
        }
    }

    /// The subscription that the form of a dialog describes, or the line that says
    /// what is missing in it.
    pub fn describe(&self, dialog: Dialog) -> (r: Result<SubType, String>)
        ensures
            match r {
                Ok(kind) => described(dialog, self@) == Ok::<SubTypeModel, Seq<char>>(kind@),
                Err(missing) => described(dialog, self@) == Err::<SubTypeModel, Seq<char>>(missing@),
            },
            r matches Ok(SubType::M3u { url }) ==> dialog == Dialog::M3u && url@ == trimmed(
                self.url@,
            ),
            r matches Ok(SubType::Xtream { host, username, password }) ==> dialog == Dialog::Xtream
                && host@ == trimmed(self.host@) && username@ == trimmed(self.user@) && password@
                == trimmed(self.pass@),
            r matches Ok(SubType::Mag { portal_url, mac, password }) ==> dialog == Dialog::Mag
                && portal_url@ == trimmed(self.portal@) && mac@ == trimmed(self.mac@) && (
            match password {
                Some(pin) => pin@ == trimmed(self.mag_pass@),
                None => trimmed(self.mag_pass@).len() == 0,
            }),
            r is Ok <==> (match dialog {
                Dialog::M3u => trimmed(self.url@).len() > 0,
                Dialog::Xtream => trimmed(self.host@).len() > 0 && trimmed(self.user@).len() > 0
                    && trimmed(self.pass@).len() > 0,
                Dialog::Mag => trimmed(self.portal@).len() > 0 && trimmed(self.mac@).len() > 0,
            }),
    {
        match dialog {
            Dialog::M3u => {
                let url = trim(self.url.as_str());
                if url.as_str().is_empty() {
                    Err("URL M3U este obligatoriu.".to_string())
                } else {
                    Ok(SubType::M3u { url })
                }
            },
            Dialog::Xtream => {
                let host = trim(self.host.as_str());
                let username = trim(self.user.as_str());
                let password = trim(self.pass.as_str());
                if host.as_str().is_empty() || username.as_str().is_empty()
                    || password.as_str().is_empty() {
                    Err("Completează toate câmpurile.".to_string())
                } else {
                    Ok(SubType::Xtream { host, username, password })
                }
            },
            Dialog::Mag => {
                let portal_url = trim(self.portal.as_str());
                let mac = trim(self.mac.as_str());
                if portal_url.as_str().is_empty() || mac.as_str().is_empty() {
                    Err("Portal URL și MAC sunt obligatorii.".to_string())
                } else {
                    let pass = trim(self.mag_pass.as_str());
                    let password = if pass.as_str().is_empty() {
                        None
                    } else {
                        Some(pass)
                    };
                    Ok(SubType::Mag { portal_url, mac, password })
                }
            },
        }
    }
}

impl App {
    /// The manager at its start, with the subscriptions read from disk; nothing
    /// stands for a file that could not be read.
    pub fn new(data: Option<AppData>) -> (r: App)
        requires
            data matches Some(d) ==> moments_valid(subs_model(d.subs@)),
        ensures
            r@ == app_start(
                match data {
                    Some(d) => subs_model(d.subs@),
                    None => Seq::empty(),
                },
            ),
            r@.well_formed(),
    {
        let data = match data {
            Some(d) => d,
            None => {
                let d = AppData::default();
                assert(subs_model(d.subs@) =~= Seq::<SubModel>::empty());
                d
            },
        };
        App {
            data,
            selected_id: None,
            status: "Gata".to_string(),
            progress_current: 0,
            progress_total: None,
            job: false,
            show_m3u: false,
            show_xt: false,
            show_mag: false,
            form: Form::new(),
        }
    }

    /// Whether a job is running.
    pub fn is_busy(&self) -> (r: bool)
        ensures
            r == self@.busy,
    {
        self.job
    }

    /// Forgets the progress.
    pub fn reset_progress(&mut self)
        ensures
            final(self)@ == old(self)@.without_progress(),
    {
        self.progress_current = 0;
        self.progress_total = None;
    }

    /// Empties the forms.
    pub fn clear_form(&mut self)
        ensures
            final(self)@ == old(self)@.with_empty_form(),
    {
        self.form = Form::new();
    }

    /// The selected subscription.
    pub fn selected_sub(&self) -> (r: Option<&Subscription>)
        ensures
            match r {
                Some(s) => selected_in(self@) == Some(s@),
                None => selected_in(self@) is None,
            },
    {
        match &self.selected_id {
            None => None,
            Some(id) => {
                let ghost subs = self@.subs;
                let mut i: usize = 0;
                assert(subs.skip(0) =~= subs);
                while i < self.data.subs.len()
                    invariant
                        subs == self@.subs,
                        self@.selected == Some(id@),
                        i <= self.data.subs.len(),
                        sub_with_id(subs, id@) == sub_with_id(subs.skip(i as int), id@),
                    decreases self.data.subs.len() - i,
                {
                    assert(subs.skip(i as int)[0] == self.data.subs@[i as int]@);
                    if self.data.subs[i].id.eq(id) {
                        return Some(&self.data.subs[i]);
                    }
                    assert(subs.skip(i as int).drop_first() =~= subs.skip(i + 1));
                    i = i + 1;
                }
                None
            },
        }
    }

    /// Whether the subscription at index `i` is the selected one.
    pub fn is_selected(&self, i: usize) -> (r: bool)
        requires
            i < self@.subs.len(),
        ensures
            r == (self@.selected == Some(self@.subs[i as int].id)),
    {
        match &self.selected_id {
            Some(id) => id.eq(&self.data.subs[i].id),
            None => false,
        }
    }

    /// Selects the subscription at index `i`.
    pub fn select(&mut self, i: usize)
        requires
            i < old(self)@.subs.len(),
        ensures
            final(self)@ == (AppModel {
                selected: Some(old(self)@.subs[i as int].id),
                ..old(self)@
            }),
    {
        self.selected_id = Some(self.data.subs[i].id.clone());
    }

    /// Whether the buttons for the selected subscription are active.
    pub fn can_click(&self) -> (r: bool)
        ensures
            r == (!self@.busy && self@.selected is Some),
    {
        !self.is_busy() && self.selected_id.is_some()
    }

    /// Asks for a job. It may start if the answer is true; a manager that is busy
    /// only says so.
    pub fn start_job(&mut self) -> (r: bool)
        ensures
            final(self)@ == job_asked(old(self)@),
            r == !old(self)@.busy,
    {
        if self.is_busy() {
            self.status = "Există deja o acțiune în desfășurare.".to_string();
            return false;
        }
        self.reset_progress();
        self.job = true;
        true
    }

    /// Asks for the download of the selected playlist. The job is to be done if an
    /// order comes back.
    pub fn start_download_playlist(&mut self) -> (r: Option<PlaylistOrder>)
        ensures
            final(self)@ == download_asked(old(self)@),
            match r {
                Some(order) => !old(self)@.busy && (selected_in(old(self)@) matches Some(sub)
                    && order.url@ == playlist_url(sub.kind) && order.file@ == playlist_file(sub)),
                None => old(self)@.busy || selected_in(old(self)@) is None,
            },
    {
        let order = match self.selected_sub() {
            Some(sub) => PlaylistOrder {
                url: build_playlist_url(sub),
                file: playlist_file_name(sub),
            },
            None => {
                self.status = "Selectează un abonament.".to_string();
                return None;
            },
        };
        self.status = "Descarc playlist...".to_string();
        if self.start_job() {
            Some(order)
        } else {
            None
        }
    }

    /// The file that holds the playlist of the selected subscription.
    pub fn selected_playlist_file(&self) -> (r: Option<String>)
        ensures
            text_model(r) == (match selected_in(self@) {
                Some(sub) => Some(playlist_file(sub)),
                None => None,
            }),
    {
        match self.selected_sub() {
            Some(sub) => Some(playlist_file_name(sub)),
            None => None,
        }
    }

    /// Asks for the selected playlist to be played; `exists` says whether its file
    /// is there. The job is to be done, with the file that comes back, if one
    /// does.
    pub fn start_ensure_mpv_and_play(&mut self, exists: bool) -> (r: Option<String>)
        ensures
            final(self)@ == play_asked(old(self)@, exists),
            text_model(r) == (match selected_in(old(self)@) {
                Some(sub) => if exists && !old(self)@.busy {
                    Some(playlist_file(sub))
                } else {
                    None
                },
                None => None,
            }),
    {
        let file = match self.selected_playlist_file() {
            Some(file) => file,
            None => {
                self.status = "Selectează un abonament.".to_string();
                return None;
            },
        };
        if !exists {
            self.status = "Playlist-ul nu există. Apasă „Descarcă” întâi.".to_string();
            return None;
        }
        if self.start_job() {
            Some(file)
        } else {
            None
        }
    }

    /// Takes the messages of the job. A manager without a job takes none.
    pub fn poll_job_messages(&mut self, msgs: Vec<JobMsg>)
        ensures
            final(self)@ == polled(old(self)@, msgs_model(msgs@)),
    {
        if !self.is_busy() {
            return;
        }
        let ghost start = self@;
        let ghost all = msgs_model(msgs@);
        let mut done: Option<String> = None;
        let mut err: Option<String> = None;
        let mut i: usize = 0;
        assert(all.take(0) =~= Seq::<MsgModel>::empty());
        while i < msgs.len()
            invariant
                i <= msgs.len(),
                all == msgs_model(msgs@),
                self@ == kept_informed(start, all.take(i as int)),
                text_model(done) == last_done(all.take(i as int)),
                text_model(err) == last_error(all.take(i as int)),
            decreases msgs.len() - i,
        {
            let ghost grown = all.take(i + 1);
            assert(grown.drop_last() =~= all.take(i as int));
            assert(grown.last() == msgs@[i as int]@);
            match &msgs[i] {
                JobMsg::Status(s) => {
                    self.status = s.clone();
                },
                JobMsg::Progress { current, total } => {
                    self.progress_current = *current;
                    self.progress_total = *total;
                },
                JobMsg::Done(s) => {
                    done = Some(s.clone());
                },
                JobMsg::Error(e) => {
                    err = Some(e.clone());
                },
            }
            i = i + 1;
        }
        assert(all.take(all.len() as int) =~= all);
        if let Some(e) = err {
            self.status = "Eroare: ".to_string().concat(e.as_str());
            self.reset_progress();
            self.job = false;
            return;
        }
        if let Some(s) = done {
            self.status = s;
            self.reset_progress();
            self.job = false;
        }
    }

    /// Takes the selected subscription off the list. The list is to be saved, and
    /// [`App::after_delete`] told how that went, if the answer is true.
    pub fn delete_selected(&mut self) -> (r: bool)
        requires
            old(self)@.well_formed(),
        ensures
            final(self)@ == deletion_asked(old(self)@),
            final(self)@.well_formed(),
            r == can_delete(old(self)@),
    {
        let id = match &self.selected_id {
            Some(id) => id.clone(),
            None => {
                self.status = "Selectează un abonament.".to_string();
                return false;
            },
        };
        let removed = self.remove_subs(&id);
        self.selected_id = None;
        proof {
            lemma_without_id_valid(old(self)@.subs, id@);
        }
        if !removed {
            self.status = "Nu am găsit abonamentul pentru ștergere.".to_string();
            return false;
        }
        true
    }

    /// Takes a click on the button that deletes. Nothing is deleted while a job is
    /// running; otherwise the selected subscription is taken off the list. The list
    /// is to be saved, and [`App::after_delete`] told how that went, if the answer is
    /// true.
    pub fn press_delete(&mut self) -> (r: bool)
        requires
            old(self)@.well_formed(),
        ensures
            final(self)@ == delete_pressed(old(self)@),
            final(self)@.well_formed(),
            r == (!old(self)@.busy && can_delete(old(self)@)),
    {
        if self.is_busy() {
            return false;
        }
        self.delete_selected()
    }

    /// Takes every subscription with this identifier off the list, and says
    /// whether there was one.
    fn remove_subs(&mut self, id: &String) -> (r: bool)
        ensures
            final(self)@ == (AppModel { subs: without_id(old(self)@.subs, id@), ..old(self)@ }),
            r == has_id(old(self)@.subs, id@),
    {
        let ghost app = self@;
        let ghost subs = self@.subs;
        let ghost keep = |s: SubModel| s.id != id@;
        let ghost mut seen: int = 0;
        let mut kept: usize = 0;
        let mut removed = false;
        proof {
            reveal(Seq::filter);
        }
        assert(subs.take(0).filter(keep) =~= Seq::<SubModel>::empty());
        assert(Seq::<SubModel>::empty() + subs.skip(0) =~= subs);
        while kept < self.data.subs.len()
            invariant
                app.subs == subs,
                keep == (|s: SubModel| s.id != id@),
                0 <= seen <= subs.len(),
                kept == subs.take(seen).filter(keep).len(),
                self.data.subs.len() - kept == subs.len() - seen,
                self@ == (AppModel {
                    subs: subs.take(seen).filter(keep) + subs.skip(seen),
                    ..app
                }),
                removed == has_id(subs.take(seen), id@),
            decreases self.data.subs.len() - kept,
        {
            proof {
                reveal(Seq::filter);
            }
            let ghost front = subs.take(seen).filter(keep);
            let ghost now = self@.subs;
            let ghost grown = subs.take(seen + 1);
            assert(grown.drop_last() =~= subs.take(seen));
            assert(grown.last() == subs[seen]);
            assert(now[kept as int] == subs[seen]);
            assert(now[kept as int] == self.data.subs@[kept as int]@);
            assert(has_id(grown, id@) == (has_id(subs.take(seen), id@) || subs[seen].id == id@)) by {
                if has_id(subs.take(seen), id@) {
                    let j = choose|j: int|
                        0 <= j < subs.take(seen).len() && (#[trigger] subs.take(seen)[j]).id == id@;
                    assert(grown[j].id == id@);
                }
                if has_id(grown, id@) {
                    let j = choose|j: int| 0 <= j < grown.len() && (#[trigger] grown[j]).id == id@;
                    if j < seen {
                        assert(subs.take(seen)[j].id == id@);
                    }
                }
                assert(grown[seen] == subs[seen]);
            }
            if self.data.subs[kept].id.eq(id) {
                let _ = self.data.subs.remove(kept);
                removed = true;
                assert(self@.subs =~= now.remove(kept as int));
                assert(self@.subs =~= front + subs.skip(seen + 1));
            } else {
                kept = kept + 1;
                assert(front + subs.skip(seen) =~= front.push(subs[seen]) + subs.skip(seen + 1));
            }
            proof {
                seen = seen + 1;
            }
        }
        assert(subs.take(seen) =~= subs);
        assert(subs.filter(keep) + subs.skip(seen) =~= subs.filter(keep));
        removed
    }

    /// Takes note of how saving the list went after a deletion.
    pub fn after_delete(&mut self, saved: Result<(), String>)
        ensures
            final(self)@ == deletion_saved(old(self)@, failure_model(saved)),
    {
        match saved {
            Err(e) => {
                self.status = "Eroare la salvare: ".to_string().concat(e.as_str());
            },
            Ok(_) => {
                self.status = "Abonament șters.".to_string();
            },
        }
    }

    /// Adds a subscription of the form's name with the given identifier and moment
    /// at the end of the list. The list is to be saved, and [`App::after_add`] told
    /// how that went, if the name comes back.
    pub fn add_subscription_as(&mut self, kind: SubType, id: String, added: Timestamp) -> (r: Option<
        String,
    >)
        requires
            old(self)@.well_formed(),
            added.valid(),
        ensures
            final(self)@ == addition_asked(old(self)@, kind@, id@, added),
            final(self)@.well_formed(),
            text_model(r) == (if trimmed(old(self)@.form.name).len() == 0 {
                None
            } else {
                Some(trimmed(old(self)@.form.name))
            }),
    {
        let name = trim(self.form.name.as_str());
        if name.as_str().is_empty() {
            self.status = "Numele este obligatoriu.".to_string();
            return None;
        }
        let ghost before = self@.subs;
        let sub = Subscription { id, name: name.clone(), kind, added };
        let ghost model = sub@;
        self.data.subs.push(sub);
        assert(self@.subs =~= before.push(model));
        Some(name)
    }

    /// Adds a subscription of the form's name, with a fresh identifier and the
    /// present moment, at the end of the list. The list is to be saved, and
    /// [`App::after_add`] told how that went, if the name comes back.
    pub fn add_subscription(&mut self, kind: SubType) -> (r: Option<String>)
        requires
            old(self)@.well_formed(),
        ensures
            final(self)@.well_formed(),
            text_model(r) == (if trimmed(old(self)@.form.name).len() == 0 {
                None
            } else {
                Some(trimmed(old(self)@.form.name))
            }),
            if trimmed(old(self)@.form.name).len() == 0 {
                final(self)@ == old(self)@.with_status("Numele este obligatoriu."@)
            } else {
                exists|id: Seq<char>, added: Timestamp|
                    is_random_id(id) && added.valid() && 0 <= added.secs && added.nanos
                        < 1_000_000_000 && final(self)@ == #[trigger] addition_asked(
                        old(self)@,
                        kind@,
                        id,
                        added,
                    )
            },
    {
        if trim(self.form.name.as_str()).as_str().is_empty() {
            self.status = "Numele este obligatoriu.".to_string();
            return None;
        }
        let id = new_id();
        let added = now();
        self.add_subscription_as(kind, id, added)
    }

    /// Takes note of how saving the list went after `name` was added.
    pub fn after_add(&mut self, name: &str, saved: Result<(), String>)
        ensures
            final(self)@ == addition_saved(old(self)@, name@, failure_model(saved)),
    {
        match saved {
            Err(e) => {
                self.status = "Eroare la salvare: ".to_string().concat(e.as_str());
            },
            Ok(_) => {
                self.status = "Adăugat: ".to_string().concat(name);
                self.clear_form();
            },
        }
    }

    /// Whether a dialog is shown.
    pub fn is_open(&self, dialog: Dialog) -> (r: bool)
        ensures
            r == (match dialog {
                Dialog::M3u => self@.show_m3u,
                Dialog::Xtream => self@.show_xt,
                Dialog::Mag => self@.show_mag,
            }),
    {
        match dialog {
            Dialog::M3u => self.show_m3u,
            Dialog::Xtream => self.show_xt,
            Dialog::Mag => self.show_mag,
        }
    }

    /// Shows a dialog or takes it away.
    pub fn set_open(&mut self, dialog: Dialog, shown: bool)
        ensures
            final(self)@ == old(self)@.with_dialog(dialog, shown),
    {
        match dialog {
            Dialog::M3u => {
                self.show_m3u = shown;
            },
            Dialog::Xtream => {
                self.show_xt = shown;
            },
            Dialog::Mag => {
                self.show_mag = shown;
            },
        }
    }

    /// Takes the buttons pressed in a dialog, and gives the kind of subscription to
    /// add, if there is one.
    pub fn leave_dialog(&mut self, dialog: Dialog, cancel: bool, add: bool) -> (r: Option<SubType>)
        ensures
            final(self)@ == dialog_left(old(self)@, dialog, cancel, add),
            match r {
                Some(kind) => add && described(dialog, old(self)@.form) == Ok::<
                    SubTypeModel,
                    Seq<char>,
                >(kind@),
                None => !add || described(dialog, old(self)@.form) is Err,
            },
    {
        if cancel || add {
            self.set_open(dialog, false);
        }
        if !add {
            return None;
        }
        match self.form.describe(dialog) {
            Ok(kind) => Some(kind),
            Err(missing) => {
                self.status = missing;
                None
            },
        }
    }

    /// What follows from the buttons pressed in a dialog. The list is to be saved,
    /// and [`App::after_add`] told how that went, if a name comes back.
    pub fn press_dialog(&mut self, dialog: Dialog, cancel: bool, add: bool) -> (r: Option<String>)
        requires
            old(self)@.well_formed(),
        ensures
            final(self)@.well_formed(),
            text_model(r) == (if dialog_adds(old(self)@, dialog, add) {
                Some(trimmed(old(self)@.form.name))
            } else {
                None
            }),
            if dialog_adds(old(self)@, dialog, add) {
                exists|id: Seq<char>, added: Timestamp|
                    is_random_id(id) && added.valid() && 0 <= added.secs && added.nanos
                        < 1_000_000_000 && final(self)@ == #[trigger] addition_asked(
                        old(self)@.with_dialog(dialog, false),
                        described(dialog, old(self)@.form)->Ok_0,
                        id,
                        added,
                    )
            } else if add && described(dialog, old(self)@.form) is Ok {
                final(self)@ == old(self)@.with_dialog(dialog, false).with_status(
                    "Numele este obligatoriu."@,
                )
            } else {
                final(self)@ == dialog_left(old(self)@, dialog, cancel, add)
            },
            r is Some ==> final(self)@.subs.len() == old(self)@.subs.len() + 1
                && final(self)@.subs.drop_last() == old(self)@.subs && final(self)@.subs.last().name
                == trimmed(old(self)@.form.name) && final(self)@.subs.last().kind == (match dialog {
                Dialog::M3u => SubTypeModel::M3u { url: trimmed(old(self)@.form.url) },
                Dialog::Xtream => SubTypeModel::Xtream {
                    host: trimmed(old(self)@.form.host),
                    username: trimmed(old(self)@.form.user),
                    password: trimmed(old(self)@.form.pass),
                },
                Dialog::Mag => SubTypeModel::Mag {
                    portal_url: trimmed(old(self)@.form.portal),
                    mac: trimmed(old(self)@.form.mac),
                    password: if trimmed(old(self)@.form.mag_pass).len() == 0 {
                        None
                    } else {
                        Some(trimmed(old(self)@.form.mag_pass))
                    },
                },
            }),
            r is None ==> final(self)@.subs == old(self)@.subs,
    {
        match self.leave_dialog(dialog, cancel, add) {
            Some(kind) => {
                let ghost left = self@;
                let ghost model = kind@;
                assert(left == old(self)@.with_dialog(dialog, false));
                let r = self.add_subscription(kind);
                proof {
                    if trimmed(left.form.name).len() > 0 {
                        let (id, added) = choose|id: Seq<char>, added: Timestamp|
                            is_random_id(id) && added.valid() && 0 <= added.secs && added.nanos
                                < 1_000_000_000 && self@ == #[trigger] addition_asked(
                                left,
                                model,
                                id,
                                added,
                            );
                        assert(self@ == addition_asked(
                            old(self)@.with_dialog(dialog, false),
                            described(dialog, old(self)@.form)->Ok_0,
                            id,
                            added,
                        ));
                    }
                }
                r
            },
            None => None,
        }
    }

    /// What stands in the progress bar, if there is one.
    pub fn progress_text(&self) -> (r: Option<String>)
        ensures
            text_model(r) == progress_shown(self@),
    {
        if !self.is_busy() {
            return None;
        }
        let current = decimal_text(self.progress_current / 1_000_000);
        match self.progress_total {
            Some(t) => Some(
                current.concat(" / ").concat(decimal_text(t / 1_000_000).as_str()).concat(" MB"),
            ),
            None => if self.progress_current > 0 {
                Some(current.concat(" MB"))
            } else {
                None
            },
        }
    }

    /// The bytes that are there and the bytes that there will be, where the
    /// progress can be given as a part of the whole.
    pub fn progress_parts(&self) -> (r: Option<(u64, u64)>)
        ensures
            r == (match self@.total {
                Some(t) => if t > 0 {
                    Some((self@.current, t))
                } else {
                    None
                },
                None => None,
            }),
    {
        match self.progress_total {
            Some(t) => if t > 0 {
                Some((self.progress_current, t))
            } else {
                None
            },
            None => None,
        }
    }

    /// Whether the line for the user is shown as an error.
    pub fn status_is_error(&self) -> (r: bool)
        ensures
            r == shown_as_error(self@.status),
    {
        contains(self.status.as_str().to_lowercase().as_str(), "eroare")
    }
}

/// Taking subscriptions away leaves none with an impossible moment.
proof fn lemma_without_id_valid(subs: Seq<SubModel>, id: Seq<char>)
    requires
        moments_valid(subs),
    ensures
        moments_valid(without_id(subs, id)),
    decreases subs.len(),
{
    reveal(Seq::filter);
    if subs.len() > 0 {
        assert(moments_valid(subs.drop_last()));
        lemma_without_id_valid(subs.drop_last(), id);
        assert(subs[subs.len() - 1].added.valid());
    }
}

// --------------------------------------------------------------------- laws

/// What the filter keeps has another identifier and was on the list; what is on
/// the list with another identifier is kept.
proof fn lemma_without_id(subs: Seq<SubModel>, id: Seq<char>, sub: SubModel)
    ensures
        without_id(subs, id).contains(sub) <==> subs.contains(sub) && sub.id != id,
    decreases subs.len(),
{
    reveal(Seq::filter);
    if subs.len() > 0 {
        let less = subs.drop_last();
        let last = subs.last();
        lemma_without_id(less, id, sub);
        assert(subs =~= less.push(last));
        assert(subs.contains(sub) <==> less.contains(sub) || sub == last) by {
            if less.contains(sub) {
                let i = choose|i: int| 0 <= i < less.len() && less[i] == sub;
                assert(subs[i] == sub);
            }
            if sub == last {
                assert(subs[subs.len() - 1] == sub);
            }
            if subs.contains(sub) && sub != last {
                let i = choose|i: int| 0 <= i < subs.len() && subs[i] == sub;
                assert(less[i] == sub);
            }
        }
        if last.id != id {
            let kept = without_id(less, id);
            assert(kept.push(last).contains(sub) <==> kept.contains(sub) || sub == last) by {
                if kept.contains(sub) {
                    let i = choose|i: int| 0 <= i < kept.len() && kept[i] == sub;
                    assert(kept.push(last)[i] == sub);
                }
                if sub == last {
                    assert(kept.push(last)[kept.len() as int] == sub);
                }
                if kept.push(last).contains(sub) && sub != last {
                    let i = choose|i: int| 0 <= i < kept.push(last).len() && kept.push(last)[i] == sub;
                    assert(kept[i] == sub);
                }
            }
        }
    }
}

/// A list without an identifier stays as it is when that is filtered out.
proof fn lemma_without_absent_id(subs: Seq<SubModel>, id: Seq<char>)
    requires
        !has_id(subs, id),
    ensures
        without_id(subs, id) == subs,
    decreases subs.len(),
{
    reveal(Seq::filter);
    if subs.len() > 0 {
        let less = subs.drop_last();
        assert(subs[subs.len() - 1].id != id);
        assert forall|i: int| 0 <= i < less.len() implies (#[trigger] less[i]).id != id by {
            assert(subs[i].id != id);
        }
        lemma_without_absent_id(less, id);
        assert(less.push(subs.last()) =~= subs);
    }
}

/// Deleting takes the subscriptions with the selected identifier off the list,
/// and no others.
pub proof fn law_deletion_takes_the_selected(app: AppModel, id: Seq<char>, sub: SubModel)
    requires
        app.selected == Some(id),
    ensures
        deletion_asked(app).subs.contains(sub) <==> app.subs.contains(sub) && sub.id != id,
        !has_id(deletion_asked(app).subs, id),
{
    let after = without_id(app.subs, id);
    lemma_without_id(app.subs, id, sub);
    if has_id(after, id) {
        let i = choose|i: int| 0 <= i < after.len() && (#[trigger] after[i]).id == id;
        assert(after.contains(after[i]));
        lemma_without_id(app.subs, id, after[i]);
    }
}

/// After a deletion nothing is selected, so a second one deletes nothing.
pub proof fn law_second_deletion_deletes_nothing(app: AppModel)
    requires
        app.selected is Some,
    ensures
        selected_in(deletion_asked(app)) is None,
        !can_delete(deletion_asked(app)),
        deletion_asked(deletion_asked(app)).subs == deletion_asked(app).subs,
{
}

/// Deleting what was just added gives back the list as it was, if its identifier
/// is a new one.
pub proof fn law_deletion_undoes_addition(
    app: AppModel,
    kind: SubTypeModel,
    id: Seq<char>,
    added: Timestamp,
)
    requires
        !has_id(app.subs, id),
        trimmed(app.form.name).len() > 0,
    ensures
        ({
            let with = addition_asked(app, kind, id, added);
            let chosen = AppModel { selected: Some(id), ..with };
            &&& selected_in(chosen) == Some(with.subs.last())
            &&& can_delete(chosen)
            &&& deletion_asked(chosen).subs == app.subs
        }),
{
    let with = addition_asked(app, kind, id, added);
    let new = with.subs.last();
    assert(with.subs[app.subs.len() as int].id == id);
    lemma_without_absent_id(app.subs, id);
    reveal(Seq::filter);
    assert(with.subs.drop_last() =~= app.subs);
    lemma_sub_with_id_at_end(app.subs, new);
}

/// A subscription with a new identifier is found at the end of the list.
proof fn lemma_sub_with_id_at_end(subs: Seq<SubModel>, new: SubModel)
    requires
        !has_id(subs, new.id),
    ensures
        sub_with_id(subs.push(new), new.id) == Some(new),
    decreases subs.len(),
{
    if subs.len() > 0 {
        assert(subs[0].id != new.id);
        assert(subs.push(new).drop_first() =~= subs.drop_first().push(new));
        assert forall|i: int| 0 <= i < subs.drop_first().len() implies (
        #[trigger] subs.drop_first()[i]).id != new.id by {
            assert(subs[i + 1].id != new.id);
        }
        lemma_sub_with_id_at_end(subs.drop_first(), new);
    }
}

/// The selected subscription is on the list and has the selected identifier, and
/// there is one exactly if some subscription has it.
pub proof fn law_selected_is_on_the_list(app: AppModel)
    ensures
        selected_in(app) matches Some(sub) ==> app.subs.contains(sub) && app.selected == Some(sub.id),
        selected_in(app) is Some <==> can_delete(app),
{
    if let Some(id) = app.selected {
        lemma_sub_with_id(app.subs, id);
    }
}

/// The first subscription with an identifier is on the list and has it.
proof fn lemma_sub_with_id(subs: Seq<SubModel>, id: Seq<char>)
    ensures
        sub_with_id(subs, id) matches Some(sub) ==> subs.contains(sub) && sub.id == id,
        sub_with_id(subs, id) is Some <==> has_id(subs, id),
    decreases subs.len(),
{
    if subs.len() > 0 {
        let less = subs.drop_first();
        lemma_sub_with_id(less, id);
        if subs[0].id == id {
            assert(subs.contains(subs[0]));
        } else {
            if has_id(less, id) {
                let i = choose|i: int| 0 <= i < less.len() && (#[trigger] less[i]).id == id;
                assert(subs[i + 1].id == id);
            }
            if has_id(subs, id) {
                let i = choose|i: int| 0 <= i < subs.len() && (#[trigger] subs[i]).id == id;
                assert(less[i - 1].id == id);
            }
            if let Some(sub) = sub_with_id(less, id) {
                let i = choose|i: int| 0 <= i < less.len() && less[i] == sub;
                assert(subs[i + 1] == sub);
            }
        }
    }
}

/// A manager that is busy starts no second job and deletes nothing: whichever of
/// these is asked of it, at most the line for the user changes.
pub proof fn law_one_job_at_a_time(app: AppModel, exists: bool)
    requires
        app.busy,
    ensures
        job_asked(app) == app.with_status(job_asked(app).status),
        download_asked(app) == app.with_status(download_asked(app).status),
        play_asked(app, exists) == app.with_status(play_asked(app, exists).status),
        delete_pressed(app) == app,
{
}

/// What is added has a name and, in every field that is asked for, a text, without
/// white space around them.
pub proof fn law_added_fields_are_trimmed(dialog: Dialog, form: FormModel)
    ensures
        described(dialog, form) matches Ok(kind) ==> is_clean_kind(kind),
        trimmed(form.name).len() > 0 ==> is_clean(trimmed(form.name)),
{
    law_trimming_twice(form.name);
    law_trimming_twice(form.url);
    law_trimming_twice(form.host);
    law_trimming_twice(form.user);
    law_trimming_twice(form.pass);
    law_trimming_twice(form.portal);
    law_trimming_twice(form.mac);
    law_trimming_twice(form.mag_pass);
}

/// A text that is not empty and has no white space around it.
pub open spec fn is_clean(s: Seq<char>) -> bool {
    s.len() > 0 && trimmed(s) == s
}

/// The fields of a kind of subscription are clean, a password where there is one.
pub open spec fn is_clean_kind(kind: SubTypeModel) -> bool {
    match kind {
        SubTypeModel::M3u { url } => is_clean(url),
        SubTypeModel::Xtream { host, username, password } => is_clean(host) && is_clean(username)
            && is_clean(password),
        SubTypeModel::Mag { portal_url, mac, password } => is_clean(portal_url) && is_clean(mac)
            && (password matches Some(p) ==> is_clean(p)),
    }
}

/// The name and the fields of every subscription are clean.
pub open spec fn is_clean_list(subs: Seq<SubModel>) -> bool {
    forall|i: int|
        0 <= i < subs.len() ==> is_clean((#[trigger] subs[i]).name) && is_clean_kind(subs[i].kind)
}

/// A list with clean names and fields stays so, whatever the manager does: when it
/// polls its job, when it is asked for a job, when it deletes, when it adds what a
/// dialog describes, and however saving the list goes. An empty list is one.
pub proof fn law_list_stays_clean(
    app: AppModel,
    msgs: Seq<MsgModel>,
    exists: bool,
    dialog: Dialog,
    cancel: bool,
    add: bool,
    id: Seq<char>,
    added: Timestamp,
    name: Seq<char>,
    failure: Option<Seq<char>>,
)
    requires
        is_clean_list(app.subs),
    ensures
        is_clean_list(app_start(Seq::empty()).subs),
        is_clean_list(polled(app, msgs).subs),
        is_clean_list(download_asked(app).subs),
        is_clean_list(play_asked(app, exists).subs),
        is_clean_list(deletion_asked(app).subs),
        is_clean_list(delete_pressed(app).subs),
        is_clean_list(deletion_saved(app, failure).subs),
        is_clean_list(dialog_left(app, dialog, cancel, add).subs),
        described(dialog, app.form) matches Ok(kind) ==> is_clean_list(
            addition_asked(app, kind, id, added).subs,
        ),
        is_clean_list(addition_saved(app, name, failure).subs),
{
    law_polling_keeps_the_list(app, msgs);
    law_added_fields_are_trimmed(dialog, app.form);
    if let Some(selected) = app.selected {
        let after = without_id(app.subs, selected);
        assert forall|i: int| 0 <= i < after.len() implies is_clean((#[trigger] after[i]).name)
            && is_clean_kind(after[i].kind) by {
            assert(after.contains(after[i]));
            lemma_without_id(app.subs, selected, after[i]);
            let j = choose|j: int| 0 <= j < app.subs.len() && app.subs[j] == after[i];
            assert(is_clean(app.subs[j].name) && is_clean_kind(app.subs[j].kind));
        }
    }
}

/// No message of these ends a job.
pub open spec fn no_last_word(msgs: Seq<MsgModel>) -> bool {
    forall|i: int| 0 <= i < msgs.len() ==> !is_last_word(#[trigger] msgs[i])
}

/// It does not matter in how many portions the messages of a job come, as long as
/// none comes behind the portion that ends it.
pub proof fn law_polling_in_portions(app: AppModel, first: Seq<MsgModel>, second: Seq<MsgModel>)
    requires
        no_last_word(first),
    ensures
        polled(polled(app, first), second) == polled(app, first + second),
{
    lemma_no_last_word(first);
    lemma_portions(app, first, second);
    lemma_kept_informed_keeps_job(app, first);
}

/// Messages that end no job report neither an error nor success.
proof fn lemma_no_last_word(msgs: Seq<MsgModel>)
    requires
        no_last_word(msgs),
    ensures
        last_error(msgs) is None,
        last_done(msgs) is None,
    decreases msgs.len(),
{
    if msgs.len() > 0 {
        assert(!is_last_word(msgs[msgs.len() - 1]));
        assert(no_last_word(msgs.drop_last())) by {
            assert forall|i: int| 0 <= i < msgs.drop_last().len() implies !is_last_word(
                #[trigger] msgs.drop_last()[i],
            ) by {
                assert(!is_last_word(msgs[i]));
            }
        }
        lemma_no_last_word(msgs.drop_last());
    }
}

/// What two portions of messages come to together.
proof fn lemma_portions(app: AppModel, first: Seq<MsgModel>, second: Seq<MsgModel>)
    requires
        last_error(first) is None,
        last_done(first) is None,
    ensures
        kept_informed(app, first + second) == kept_informed(kept_informed(app, first), second),
        last_error(first + second) == last_error(second),
        last_done(first + second) == last_done(second),
    decreases second.len(),
{
    if second.len() == 0 {
        assert(first + second =~= first);
    } else {
        let both = first + second;
        assert(both.drop_last() =~= first + second.drop_last());
        assert(both.last() == second.last());
        lemma_portions(app, first, second.drop_last());
    }
}

/// Being informed neither starts nor ends a job.
proof fn lemma_kept_informed_keeps_job(app: AppModel, msgs: Seq<MsgModel>)
    ensures
        kept_informed(app, msgs).busy == app.busy,
        kept_informed(app, msgs).subs == app.subs,
        kept_informed(app, msgs).selected == app.selected,
        kept_informed(app, msgs).form == app.form,
    decreases msgs.len(),
{
    if msgs.len() > 0 {
        lemma_kept_informed_keeps_job(app, msgs.drop_last());
    }
}

/// The messages of a job change neither the list, the selection nor the forms.
pub proof fn law_polling_keeps_the_list(app: AppModel, msgs: Seq<MsgModel>)
    ensures
        polled(app, msgs).subs == app.subs,
        polled(app, msgs).selected == app.selected,
        polled(app, msgs).form == app.form,
{
    lemma_kept_informed_keeps_job(app, msgs);
}

/// Where an error is among the messages, the line for the user is the last error,
/// even if the job said that it is through as well.
pub proof fn law_error_counts_for_more(app: AppModel, msgs: Seq<MsgModel>)
    requires
        app.busy,
        last_error(msgs) is Some,
    ensures
        polled(app, msgs).status == "Eroare: "@ + last_error(msgs)->0,
        !polled(app, msgs).busy,
        polled(app, msgs).current == 0 && polled(app, msgs).total is None,
{
}

/// A job with a last word leaves the manager free, without progress; one without
/// leaves it busy.
proof fn lemma_last_word_frees(app: AppModel, told: Seq<MsgModel>, over: bool)
    requires
        app.busy,
        ends_with_last_word(told, over),
    ensures
        polled(app, told).busy == !over,
        over ==> polled(app, told).current == 0 && polled(app, told).total is None,
        over ==> polled(app, told).status == (match told.last() {
            MsgModel::Error(e) => "Eroare: "@ + e,
            MsgModel::Done(s) => s,
            _ => app.status,
        }),
{
    lemma_kept_informed_keeps_job(app, told);
    if told.len() > 0 {
        let before = told.drop_last();
        assert forall|i: int| 0 <= i < before.len() implies !is_last_word(#[trigger] before[i]) by {
            assert(!is_last_word(told[i]));
        }
        lemma_no_last_word(before);
        if !over {
            assert(no_last_word(told)) by {
                assert forall|i: int| 0 <= i < told.len() implies !is_last_word(
                    #[trigger] told[i],
                ) by {
                    if i < told.len() - 1 {
                        assert(before[i] == told[i]);
                    }
                }
            }
            lemma_no_last_word(told);
        }
    }
}

/// The manager is free again exactly when the download of a playlist is over, and
/// shows no progress then.
pub proof fn law_download_frees_the_manager(app: AppModel, events: Seq<DownloadEvent>)
    requires
        app.busy,
    ensures
        polled(app, download_told(events)).busy <==> !(download_after(events) is Over),
        download_after(events) is Over ==> polled(app, download_told(events)).current == 0
            && polled(app, download_told(events)).total is None,
{
    law_download_has_one_last_word(events);
    lemma_last_word_frees(app, download_told(events), download_after(events) is Over);
}

/// The manager is free again exactly when the job that plays a playlist is over,
/// and shows no progress then.
pub proof fn law_playing_frees_the_manager(app: AppModel, events: Seq<PlayEvent>)
    requires
        app.busy,
    ensures
        polled(app, play_told(events)).busy <==> !(play_after(events).stage is Over),
        play_after(events).stage is Over ==> polled(app, play_told(events)).current == 0 && polled(
            app,
            play_told(events),
        ).total is None,
{
    law_play_has_one_last_word(events);
    lemma_last_word_frees(app, play_told(events), play_after(events).stage is Over);
}

/// A line that reports an error of a job, or a list that could not be saved, is
/// shown as an error, whatever the reason says.
pub proof fn law_errors_are_shown_as_errors(reason: Seq<char>)
    ensures
        shown_as_error("Eroare: "@ + reason),
        shown_as_error(not_saved(reason)),
{
    reveal_strlit("Eroare: ");
    reveal_strlit("Eroare la salvare: ");
    lemma_starts_with_error("Eroare: "@ + reason);
    lemma_starts_with_error("Eroare la salvare: "@ + reason);
}

/// A text that starts with the word for an error is shown as one.
proof fn lemma_starts_with_error(s: Seq<char>)
    requires
        s.len() >= 6,
        s[0] == 'E',
        s[1] == 'r',
        s[2] == 'o',
        s[3] == 'a',
        s[4] == 'r',
        s[5] == 'e',
    ensures
        shown_as_error(s),
{
    let p = lower_pieces(s);
    assert(lowercase(s) == p.flatten());
    let p1 = p.drop_first();
    let p2 = p1.drop_first();
    let p3 = p2.drop_first();
    let p4 = p3.drop_first();
    let p5 = p4.drop_first();
    let rest = p5.drop_first().flatten();
    assert(p5.flatten() =~= seq!['e'] + rest);
    assert(p4.flatten() =~= seq!['r', 'e'] + rest);
    assert(p3.flatten() =~= seq!['a', 'r', 'e'] + rest);
    assert(p2.flatten() =~= seq!['o', 'a', 'r', 'e'] + rest);
    assert(p1.flatten() =~= seq!['r', 'o', 'a', 'r', 'e'] + rest);
    assert(ascii_lower('E') == 'e');
    assert(p.flatten() =~= seq!['e', 'r', 'o', 'a', 'r', 'e'] + rest);
    reveal_strlit("eroare");
    assert(lowercase(s).subrange(0, 6) =~= "eroare"@);
    assert(occurs_at(lowercase(s), "eroare"@, 0));
}

/// A manager starts without selection, job, progress or dialogs, with empty forms
/// and with the list as it was read.
pub proof fn law_manager_starts_idle(subs: Seq<SubModel>)
    ensures
        app_start(subs).subs == subs,
        app_start(subs).selected is None,
        app_start(subs).status == "Gata"@,
        app_start(subs).current == 0 && app_start(subs).total is None,
        !app_start(subs).busy,
        !app_start(subs).show_m3u && !app_start(subs).show_xt && !app_start(subs).show_mag,
        app_start(subs).form == (FormModel {
            name: Seq::empty(),
            url: Seq::empty(),
            host: Seq::empty(),
            user: Seq::empty(),
            pass: Seq::empty(),
            portal: Seq::empty(),
            mac: Seq::empty(),
            mag_pass: Seq::empty(),
        }),
{
}

/// What a dialog describes holds in each field the text that was typed into that
/// field, with nothing but the white space around it taken off; a password of a
/// portal is left out where it is blank. A dialog describes nothing exactly if a
/// field that it asks for is blank, and says so.
pub proof fn law_dialog_stores_what_was_typed(dialog: Dialog, form: FormModel)
    ensures
        match described(dialog, form) {
            Ok(SubTypeModel::M3u { url }) => {
                &&& dialog == Dialog::M3u
                &&& is_core(form.url, url) && url.len() > 0
            },
            Ok(SubTypeModel::Xtream { host, username, password }) => {
                &&& dialog == Dialog::Xtream
                &&& is_core(form.host, host) && host.len() > 0
                &&& is_core(form.user, username) && username.len() > 0
                &&& is_core(form.pass, password) && password.len() > 0
            },
            Ok(SubTypeModel::Mag { portal_url, mac, password }) => {
                &&& dialog == Dialog::Mag
                &&& is_core(form.portal, portal_url) && portal_url.len() > 0
                &&& is_core(form.mac, mac) && mac.len() > 0
                &&& match password {
                    Some(pin) => is_core(form.mag_pass, pin) && pin.len() > 0,
                    None => is_blank(form.mag_pass),
                }
            },
            Err(line) => match dialog {
                Dialog::M3u => line == "URL M3U este obligatoriu."@ && is_blank(form.url),
                Dialog::Xtream => line == "Completează toate câmpurile."@ && (is_blank(form.host)
                    || is_blank(form.user) || is_blank(form.pass)),
                Dialog::Mag => line == "Portal URL și MAC sunt obligatorii."@ && (is_blank(
                    form.portal,
                ) || is_blank(form.mac)),
            },
        },
{
    lemma_typed(form.url);
    lemma_typed(form.host);
    lemma_typed(form.user);
    lemma_typed(form.pass);
    lemma_typed(form.portal);
    lemma_typed(form.mac);
    lemma_typed(form.mag_pass);
}

/// What trimming leaves of a typed text.
proof fn lemma_typed(s: Seq<char>)
    ensures
        is_core(s, trimmed(s)),
        trimmed(s).len() == 0 <==> is_blank(s),
{
    law_trimmed_is_the_core(s, trimmed(s));
    law_blank_text_is_trimmed_away(s);
}

/// Fields that neither start nor end with white space are stored as they were
/// typed.
pub proof fn law_clean_fields_are_stored_unchanged(form: FormModel)
    requires
        is_core(form.url, form.url) && form.url.len() > 0,
        is_core(form.host, form.host) && form.host.len() > 0,
        is_core(form.user, form.user) && form.user.len() > 0,
        is_core(form.pass, form.pass) && form.pass.len() > 0,
        is_core(form.portal, form.portal) && form.portal.len() > 0,
        is_core(form.mac, form.mac) && form.mac.len() > 0,
        is_core(form.mag_pass, form.mag_pass) && form.mag_pass.len() > 0,
    ensures
        described(Dialog::M3u, form) == Ok::<SubTypeModel, Seq<char>>(
            SubTypeModel::M3u { url: form.url },
        ),
        described(Dialog::Xtream, form) == Ok::<SubTypeModel, Seq<char>>(
            SubTypeModel::Xtream {
                host: form.host,
                username: form.user,
                password: form.pass,
            },
        ),
        described(Dialog::Mag, form) == Ok::<SubTypeModel, Seq<char>>(
            SubTypeModel::Mag {
                portal_url: form.portal,
                mac: form.mac,
                password: Some(form.mag_pass),
            },
        ),
{
    law_trimmed_is_the_core(form.url, form.url);
    law_trimmed_is_the_core(form.host, form.host);
    law_trimmed_is_the_core(form.user, form.user);
    law_trimmed_is_the_core(form.pass, form.pass);
    law_trimmed_is_the_core(form.portal, form.portal);
    law_trimmed_is_the_core(form.mac, form.mac);
    law_trimmed_is_the_core(form.mag_pass, form.mag_pass);
}

/// Adding puts one subscription at the end of the list, with the name that was
/// typed, the white space around it taken off, and the kind, identifier and moment
/// that are given; it changes nothing else. A blank name is refused, and only the
/// line for the user changes.
pub proof fn law_addition_goes_to_the_end(
    app: AppModel,
    kind: SubTypeModel,
    id: Seq<char>,
    added: Timestamp,
)
    ensures
        ({
            let after = addition_asked(app, kind, id, added);
            if is_blank(app.form.name) {
                after == (AppModel { status: "Numele este obligatoriu."@, ..app })
            } else {
                &&& after.subs.len() == app.subs.len() + 1
                &&& after.subs.drop_last() == app.subs
                &&& is_core(app.form.name, after.subs.last().name)
                &&& after.subs.last().id == id
                &&& after.subs.last().kind == kind
                &&& after.subs.last().added == added
                &&& after == (AppModel { subs: after.subs, ..app })
            }
        }),
{
    lemma_typed(app.form.name);
    let after = addition_asked(app, kind, id, added);
    if !is_blank(app.form.name) {
        assert(after.subs.drop_last() =~= app.subs);
    }
}

/// How saving the list went after an addition: a failure is told with its reason
/// and leaves the forms; success is told with the name and empties them. The list
/// stays either way.
pub proof fn law_saved_addition_is_told(app: AppModel, name: Seq<char>, reason: Seq<char>)
    ensures
        addition_saved(app, name, Some(reason)) == (AppModel {
            status: "Eroare la salvare: "@ + reason,
            ..app
        }),
        addition_saved(app, name, None) == (AppModel {
            status: "Adăugat: "@ + name,
            form: app_start(app.subs).form,
            ..app
        }),
{
}

/// How saving the list went after a deletion: only the line for the user changes.
pub proof fn law_saved_deletion_is_told(app: AppModel, reason: Seq<char>)
    ensures
        deletion_saved(app, Some(reason)) == (AppModel {
            status: "Eroare la salvare: "@ + reason,
            ..app
        }),
        deletion_saved(app, None) == (AppModel { status: "Abonament șters."@, ..app }),
{
}

/// The buttons of a dialog take that dialog away and no other; one that adds says
/// what is missing in the form, if anything is. Without a button nothing happens.
pub proof fn law_buttons_close_their_own_dialog(
    app: AppModel,
    dialog: Dialog,
    cancel: bool,
    add: bool,
)
    ensures
        ({
            let left = dialog_left(app, dialog, cancel, add);
            let closed = AppModel {
                show_m3u: app.show_m3u && dialog != Dialog::M3u,
                show_xt: app.show_xt && dialog != Dialog::Xtream,
                show_mag: app.show_mag && dialog != Dialog::Mag,
                ..app
            };
            if add && described(dialog, app.form) is Err {
                left == (AppModel { status: described(dialog, app.form)->Err_0, ..closed })
            } else if add || cancel {
                left == closed
            } else {
                left == app
            }
        }),
{
}

/// Showing a dialog, or taking it away, concerns that dialog alone.
pub proof fn law_dialogs_are_shown_one_by_one(app: AppModel, dialog: Dialog, shown: bool)
    ensures
        app.with_dialog(dialog, shown) == (AppModel {
            show_m3u: if dialog == Dialog::M3u {
                shown
            } else {
                app.show_m3u
            },
            show_xt: if dialog == Dialog::Xtream {
                shown
            } else {
                app.show_xt
            },
            show_mag: if dialog == Dialog::Mag {
                shown
            } else {
                app.show_mag
            },
            ..app
        }),
{
}

/// The selected subscription is the first on the list that has the selected
/// identifier; there is none where nothing is selected or none has it.
pub proof fn law_selected_is_the_first_with_its_id(app: AppModel, i: int)
    requires
        0 <= i <= app.subs.len(),
        app.selected matches Some(id) ==> (forall|j: int|
            0 <= j < i ==> (#[trigger] app.subs[j]).id != id) && (i < app.subs.len()
            ==> app.subs[i].id == id),
    ensures
        selected_in(app) == if app.selected is Some && i < app.subs.len() {
            Some(app.subs[i])
        } else {
            None
        },
{
    if let Some(id) = app.selected {
        lemma_first_with_id(app.subs, id, i);
    }
}

/// The first subscription with an identifier stands where none before it has it.
proof fn lemma_first_with_id(subs: Seq<SubModel>, id: Seq<char>, i: int)
    requires
        0 <= i <= subs.len(),
        forall|j: int| 0 <= j < i ==> (#[trigger] subs[j]).id != id,
        i < subs.len() ==> subs[i].id == id,
    ensures
        sub_with_id(subs, id) == if i < subs.len() {
            Some(subs[i])
        } else {
            None
        },
    decreases subs.len(),
{
    if i > 0 {
        let rest = subs.drop_first();
        assert(subs[0].id != id);
        assert forall|j: int| 0 <= j < i - 1 implies (#[trigger] rest[j]).id != id by {
            assert(subs[j + 1].id != id);
        }
        lemma_first_with_id(rest, id, i - 1);
    }
}

/// A job that may start makes the manager busy and clears the progress; one that
/// may not is answered with a line for the user.
pub proof fn law_job_makes_the_manager_busy(app: AppModel)
    ensures
        !app.busy ==> job_asked(app) == (AppModel { busy: true, current: 0, total: None, ..app }),
        app.busy ==> job_asked(app) == (AppModel {
            status: "Există deja o acțiune în desfășurare."@,
            ..app
        }),
{
}

/// What asking for a download or for playing comes to: without a selected
/// subscription on the list it is refused; playing is refused where the playlist
/// is not there; otherwise the job starts, or waits for no other.
pub proof fn law_jobs_need_a_selection(app: AppModel, exists: bool)
    ensures
        ({
            let on_list = app.selected matches Some(id) && exists|i: int|
                0 <= i < app.subs.len() && (#[trigger] app.subs[i]).id == id;
            let refused = AppModel { status: "Selectează un abonament."@, ..app };
            let waits = AppModel { status: "Există deja o acțiune în desfășurare."@, ..app };
            let started = AppModel { busy: true, current: 0, total: None, ..app };
            &&& download_asked(app) == if !on_list {
                refused
            } else if app.busy {
                waits
            } else {
                AppModel { status: "Descarc playlist..."@, ..started }
            }
            &&& play_asked(app, exists) == if !on_list {
                refused
            } else if !exists {
                AppModel { status: "Playlist-ul nu există. Apasă „Descarcă” întâi."@, ..app }
            } else if app.busy {
                waits
            } else {
                started
            }
        }),
{
    law_selected_is_on_the_list(app);
}

/// Deleting keeps every other subscription in its place among the others: of a
/// list in two parts it leaves what it leaves of each part, and of a single
/// subscription nothing exactly if that has the selected identifier.
pub proof fn law_deletion_keeps_the_others_in_order(
    app: AppModel,
    id: Seq<char>,
    front: Seq<SubModel>,
    back: Seq<SubModel>,
    one: SubModel,
)
    requires
        app.selected == Some(id),
    ensures
        ({
            let left = |subs: Seq<SubModel>| deletion_asked(AppModel { subs, ..app }).subs;
            &&& left(front + back) == left(front) + left(back)
            &&& left(seq![one]) == if one.id == id {
                Seq::empty()
            } else {
                seq![one]
            }
            &&& left(Seq::empty()) == Seq::<SubModel>::empty()
        }),
{
    reveal(Seq::filter);
    lemma_without_id_of_sum(front, back, id);
    let alone = seq![one];
    assert(alone.drop_last() =~= Seq::<SubModel>::empty());
    assert(without_id(alone.drop_last(), id) =~= Seq::<SubModel>::empty());
    assert(Seq::<SubModel>::empty().push(one) =~= alone);
}

/// What is filtered out of a list in two parts is filtered out of each.
proof fn lemma_without_id_of_sum(front: Seq<SubModel>, back: Seq<SubModel>, id: Seq<char>)
    ensures
        without_id(front + back, id) == without_id(front, id) + without_id(back, id),
    decreases back.len(),
{
    reveal(Seq::filter);
    let all = front + back;
    if back.len() == 0 {
        assert(all =~= front);
        assert(without_id(front, id) + without_id(back, id) =~= without_id(front, id));
    } else {
        assert(all.drop_last() =~= front + back.drop_last());
        assert(all.last() == back.last());
        lemma_without_id_of_sum(front, back.drop_last(), id);
        if back.last().id != id {
            assert(without_id(front, id) + without_id(back.drop_last(), id).push(back.last())
                =~= (without_id(front, id) + without_id(back.drop_last(), id)).push(back.last()));
        }
    }
}

/// Apart from the list, deleting takes the selection away and, where nothing was
/// deleted, says why; there is something to delete exactly if the selected
/// identifier is on the list.
pub proof fn law_deletion_says_why_it_did_nothing(app: AppModel)
    ensures
        ({
            let after = deletion_asked(app);
            let on_list = app.selected matches Some(id) && exists|i: int|
                0 <= i < app.subs.len() && (#[trigger] app.subs[i]).id == id;
            &&& can_delete(app) <==> on_list
            &&& app.selected is None ==> after == (AppModel {
                status: "Selectează un abonament."@,
                ..app
            })
            &&& app.selected is Some && !on_list ==> after == (AppModel {
                selected: None,
                status: "Nu am găsit abonamentul pentru ștergere."@,
                ..app
            })
            &&& on_list ==> after == (AppModel { selected: None, subs: after.subs, ..app })
            &&& on_list ==> after.subs.len() < app.subs.len()
            &&& delete_pressed(app) == if app.busy {
                app
            } else {
                after
            }
        }),
{
    if let Some(id) = app.selected {
        if has_id(app.subs, id) {
            lemma_fewer_without_id(app.subs, id);
        } else {
            lemma_without_absent_id(app.subs, id);
        }
    }
}

/// A list on which an identifier stands is longer than the list without it.
proof fn lemma_fewer_without_id(subs: Seq<SubModel>, id: Seq<char>)
    requires
        has_id(subs, id),
    ensures
        without_id(subs, id).len() < subs.len(),
    decreases subs.len(),
{
    reveal(Seq::filter);
    let less = subs.drop_last();
    less.lemma_filter_len(|s: SubModel| s.id != id);
    if subs.last().id != id {
        let i = choose|i: int| 0 <= i < subs.len() && (#[trigger] subs[i]).id == id;
        assert(less[i].id == id);
        lemma_fewer_without_id(less, id);
    }
}

/// The last error among messages.
proof fn lemma_last_error(msgs: Seq<MsgModel>, i: int)
    requires
        0 <= i < msgs.len(),
        msgs[i] is Error,
        forall|j: int| i < j < msgs.len() ==> !(#[trigger] msgs[j] is Error),
    ensures
        last_error(msgs) == Some(msgs[i]->Error_0),
    decreases msgs.len(),
{
    if i < msgs.len() - 1 {
        let less = msgs.drop_last();
        assert(!(msgs[msgs.len() - 1] is Error));
        assert forall|j: int| i < j < less.len() implies !(#[trigger] less[j] is Error) by {
            assert(msgs[j] == less[j]);
        }
        lemma_last_error(less, i);
    }
}

/// Messages without an error have no last error.
proof fn lemma_no_error(msgs: Seq<MsgModel>)
    requires
        forall|j: int| 0 <= j < msgs.len() ==> !(#[trigger] msgs[j] is Error),
    ensures
        last_error(msgs) is None,
    decreases msgs.len(),
{
    if msgs.len() > 0 {
        let less = msgs.drop_last();
        assert(!(msgs[msgs.len() - 1] is Error));
        assert forall|j: int| 0 <= j < less.len() implies !(#[trigger] less[j] is Error) by {
            assert(msgs[j] == less[j]);
        }
        lemma_no_error(less);
    }
}

/// The last message of success among messages.
proof fn lemma_last_done(msgs: Seq<MsgModel>, i: int)
    requires
        0 <= i < msgs.len(),
        msgs[i] is Done,
        forall|j: int| i < j < msgs.len() ==> !(#[trigger] msgs[j] is Done),
    ensures
        last_done(msgs) == Some(msgs[i]->Done_0),
    decreases msgs.len(),
{
    if i < msgs.len() - 1 {
        let less = msgs.drop_last();
        assert(!(msgs[msgs.len() - 1] is Done));
        assert forall|j: int| i < j < less.len() implies !(#[trigger] less[j] is Done) by {
            assert(msgs[j] == less[j]);
        }
        lemma_last_done(less, i);
    }
}

/// Being informed concerns the line for the user and the progress alone.
proof fn lemma_informed_otherwise_same(app: AppModel, msgs: Seq<MsgModel>)
    ensures
        ({
            let after = kept_informed(app, msgs);
            after == (AppModel {
                status: after.status,
                current: after.current,
                total: after.total,
                ..app
            })
        }),
    decreases msgs.len(),
{
    if msgs.len() > 0 {
        lemma_informed_otherwise_same(app, msgs.drop_last());
    }
}

/// The line for the user is that of the last message that has one.
proof fn lemma_informed_status(app: AppModel, msgs: Seq<MsgModel>, i: int)
    requires
        -1 <= i < msgs.len(),
        i >= 0 ==> msgs[i] is Status,
        forall|j: int| i < j < msgs.len() ==> !(#[trigger] msgs[j] is Status),
    ensures
        kept_informed(app, msgs).status == if i >= 0 {
            msgs[i]->Status_0
        } else {
            app.status
        },
    decreases msgs.len(),
{
    if i < msgs.len() - 1 {
        let less = msgs.drop_last();
        assert(!(msgs[msgs.len() - 1] is Status));
        assert forall|j: int| i < j < less.len() implies !(#[trigger] less[j] is Status) by {
            assert(msgs[j] == less[j]);
        }
        lemma_informed_status(app, less, i);
    }
}

/// The progress is that of the last message that has one.
proof fn lemma_informed_progress(app: AppModel, msgs: Seq<MsgModel>, i: int)
    requires
        -1 <= i < msgs.len(),
        i >= 0 ==> msgs[i] is Progress,
        forall|j: int| i < j < msgs.len() ==> !(#[trigger] msgs[j] is Progress),
    ensures
        kept_informed(app, msgs).current == if i >= 0 {
            msgs[i]->current
        } else {
            app.current
        },
        kept_informed(app, msgs).total == if i >= 0 {
            msgs[i]->total
        } else {
            app.total
        },
    decreases msgs.len(),
{
    if i < msgs.len() - 1 {
        let less = msgs.drop_last();
        assert(!(msgs[msgs.len() - 1] is Progress));
        assert forall|j: int| i < j < less.len() implies !(#[trigger] less[j] is Progress) by {
            assert(msgs[j] == less[j]);
        }
        lemma_informed_progress(app, less, i);
    }
}

/// A job that reported an error is over: the last error is the line for the user,
/// whatever else was reported, the progress is gone, and nothing else changes.
pub proof fn law_last_error_ends_the_job(app: AppModel, msgs: Seq<MsgModel>, i: int)
    requires
        app.busy,
        0 <= i < msgs.len(),
        msgs[i] is Error,
        forall|j: int| i < j < msgs.len() ==> !(#[trigger] msgs[j] is Error),
    ensures
        polled(app, msgs) == (AppModel {
            busy: false,
            status: "Eroare: "@ + msgs[i]->Error_0,
            current: 0,
            total: None,
            ..app
        }),
{
    lemma_last_error(msgs, i);
    lemma_informed_otherwise_same(app, msgs);
}

/// A job that reported success, and no error, is over: its last such message is the
/// line for the user, the progress is gone, and nothing else changes.
pub proof fn law_last_success_ends_the_job(app: AppModel, msgs: Seq<MsgModel>, i: int)
    requires
        app.busy,
        0 <= i < msgs.len(),
        msgs[i] is Done,
        forall|j: int| i < j < msgs.len() ==> !(#[trigger] msgs[j] is Done),
        forall|j: int| 0 <= j < msgs.len() ==> !(#[trigger] msgs[j] is Error),
    ensures
        polled(app, msgs) == (AppModel {
            busy: false,
            status: msgs[i]->Done_0,
            current: 0,
            total: None,
            ..app
        }),
{
    lemma_no_error(msgs);
    lemma_last_done(msgs, i);
    lemma_informed_otherwise_same(app, msgs);
}

/// A job that reported neither goes on: the line for the user is the last one that
/// it reported, at index `s`, the progress the last one, at index `p`, where there
/// is one, and nothing else changes. Without a job nothing changes at all.
pub proof fn law_job_that_goes_on_keeps_the_user_informed(
    app: AppModel,
    msgs: Seq<MsgModel>,
    s: int,
    p: int,
)
    requires
        no_last_word(msgs),
        -1 <= s < msgs.len(),
        s >= 0 ==> msgs[s] is Status,
        forall|j: int| s < j < msgs.len() ==> !(#[trigger] msgs[j] is Status),
        -1 <= p < msgs.len(),
        p >= 0 ==> msgs[p] is Progress,
        forall|j: int| p < j < msgs.len() ==> !(#[trigger] msgs[j] is Progress),
    ensures
        polled(app, msgs) == if !app.busy {
            app
        } else {
            AppModel {
                status: if s >= 0 {
                    msgs[s]->Status_0
                } else {
                    app.status
                },
                current: if p >= 0 {
                    msgs[p]->current
                } else {
                    app.current
                },
                total: if p >= 0 {
                    msgs[p]->total
                } else {
                    app.total
                },
                ..app
            }
        },
{
    lemma_no_last_word(msgs);
    lemma_informed_otherwise_same(app, msgs);
    lemma_informed_status(app, msgs, s);
    lemma_informed_progress(app, msgs, p);
}

/// A manager without a job takes no messages.
pub proof fn law_idle_manager_takes_no_messages(app: AppModel, msgs: Seq<MsgModel>)
    requires
        !app.busy,
    ensures
        polled(app, msgs) == app,
{
}

/// The progress bar shows whole megabytes, rounded down, of how many there will be
/// if that is known; it is there while a job runs, once the bytes or their total
/// are known.
pub proof fn law_progress_is_shown_in_whole_megabytes(app: AppModel, have: nat, whole: nat)
    requires
        have * 1_000_000 <= app.current < (have + 1) * 1_000_000,
        app.total matches Some(t) ==> whole * 1_000_000 <= t < (whole + 1) * 1_000_000,
    ensures
        progress_shown(app) == if !app.busy {
            None
        } else if app.total is Some {
            Some(decimal(have) + " / "@ + decimal(whole) + " MB"@)
        } else if app.current > 0 {
            Some(decimal(have) + " MB"@)
        } else {
            None
        },
{
    assert(app.current as nat / 1_000_000 == have);
    if let Some(t) = app.total {
        assert(t as nat / 1_000_000 == whole);
    }
}

/// A line that holds the word `eroare`, in whatever case, is shown as an error,
/// whatever surrounds the word.
pub proof fn law_word_for_error_is_seen(a: Seq<char>, word: Seq<char>, b: Seq<char>)
    requires
        word.len() == 6,
        same_letter(word[0], 'e'),
        same_letter(word[1], 'r'),
        same_letter(word[2], 'o'),
        same_letter(word[3], 'a'),
        same_letter(word[4], 'r'),
        same_letter(word[5], 'e'),
    ensures
        shown_as_error(a + word + b),
{
    reveal_strlit("eroare");
    law_lower_case_keeps_parts(a, word, b, "eroare"@);
    law_part_stands_between(lowercase(a + word + b), "eroare"@);
}

/// A line of ASCII characters that is shown as an error holds the word `eroare`, in
/// whatever case.
pub proof fn law_only_the_word_for_error_is_seen(s: Seq<char>)
    requires
        forall|i: int| 0 <= i < s.len() ==> (#[trigger] s[i]) as u32 <= 127,
        shown_as_error(s),
    ensures
        exists|i: int|
            0 <= i <= s.len() - 6 && same_letter(#[trigger] s[i], 'e') && same_letter(s[i + 1], 'r')
                && same_letter(s[i + 2], 'o') && same_letter(s[i + 3], 'a') && same_letter(
                s[i + 4],
                'r',
            ) && same_letter(s[i + 5], 'e'),
{
    reveal_strlit("eroare");
    law_lower_case_of_ascii(s);
    let low = lowercase(s);
    let i = choose|i: int| occurs_at(low, "eroare"@, i);
    let word = s.subrange(i, i + 6);
    assert forall|k: int| 0 <= k < 6 implies same_letter(#[trigger] word[k], "eroare"@[k]) by {
        assert(low.subrange(i, i + 6)[k] == low[i + k]);
        assert(word[k] == s[i + k]);
    }
    assert(same_letter(word[0], 'e') && same_letter(word[1], 'r') && same_letter(word[2], 'o')
        && same_letter(word[3], 'a') && same_letter(word[4], 'r') && same_letter(word[5], 'e'));
    assert(word[0] == s[i]);
}

/// A line is shown as an error exactly if the word `eroare` stands in its lower
/// case, with something, or nothing, around it.
pub proof fn law_error_is_told_by_its_word(s: Seq<char>)
    ensures
        shown_as_error(s) <==> exists|a: Seq<char>, b: Seq<char>|
            lowercase(s) == #[trigger] (a + "eroare"@ + b),
{
    law_part_stands_between(lowercase(s), "eroare"@);
}

} // verus!
