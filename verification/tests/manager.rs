use iptv_manager::clock::Timestamp;
use iptv_manager::jobs::JobMsg;
use iptv_manager::manager::{App, AppData, Dialog};
use iptv_manager::subscription::{SubType, Subscription};

fn moment() -> Timestamp {
    Timestamp::new(1431648000, 5).unwrap()
}

fn sub(id: &str, name: &str) -> Subscription {
    Subscription {
        id: id.to_string(),
        name: name.to_string(),
        kind: SubType::M3u { url: format!("http://{}", id) },
        added: moment(),
    }
}

fn app(ids: &[&str]) -> App {
    App::new(Some(AppData { subs: ids.iter().map(|id| sub(id, "TV 1")).collect() }))
}

fn ids(app: &App) -> Vec<&str> {
    app.data.subs.iter().map(|s| s.id.as_str()).collect()
}

fn status(s: &str) -> JobMsg {
    JobMsg::Status(s.to_string())
}

fn done(s: &str) -> JobMsg {
    JobMsg::Done(s.to_string())
}

fn error(s: &str) -> JobMsg {
    JobMsg::Error(s.to_string())
}

#[test]
fn a_manager_starts_idle() {
    let a = App::new(None);
    assert_eq!(a.status, "Gata");
    assert!(!a.is_busy());
    assert!(a.data.subs.is_empty());
    assert!(a.selected_sub().is_none());
    assert!(!a.can_click());
    assert!(!a.status_is_error());
    assert_eq!(ids(&app(&["a", "b"])), vec!["a", "b"]);
}

#[test]
fn selecting_activates_the_buttons() {
    let mut a = app(&["a", "b"]);
    a.select(1);
    assert!(a.is_selected(1));
    assert!(!a.is_selected(0));
    assert!(a.can_click());
    assert_eq!(a.selected_sub().unwrap().id, "b");
    assert!(a.start_job());
    assert!(!a.can_click());
}

#[test]
fn one_job_runs_at_a_time() {
    let mut a = app(&["a"]);
    a.progress_current = 3;
    a.progress_total = Some(4);
    assert!(a.start_job());
    assert_eq!((a.progress_current, a.progress_total), (0, None));
    a.progress_current = 3;
    assert!(!a.start_job());
    assert_eq!(a.status, "Există deja o acțiune în desfășurare.");
    assert_eq!(a.progress_current, 3);
    assert!(a.is_busy());
}

#[test]
fn the_selected_playlist_is_downloaded() {
    let mut a = app(&["a", "b"]);
    assert!(a.start_download_playlist().is_none());
    assert_eq!(a.status, "Selectează un abonament.");
    a.select(1);
    let order = a.start_download_playlist().unwrap();
    assert_eq!(order.url, "http://b");
    assert_eq!(order.file, "TV_1.m3u");
    assert_eq!(a.status, "Descarc playlist...");
    assert!(a.is_busy());
    assert!(a.start_download_playlist().is_none());
    assert_eq!(a.status, "Există deja o acțiune în desfășurare.");
}

#[test]
fn the_selected_playlist_is_played_if_it_is_there() {
    let mut a = app(&["a"]);
    assert_eq!(a.selected_playlist_file(), None);
    assert_eq!(a.start_ensure_mpv_and_play(true), None);
    assert_eq!(a.status, "Selectează un abonament.");
    a.select(0);
    assert_eq!(a.selected_playlist_file(), Some("TV_1.m3u".to_string()));
    assert_eq!(a.start_ensure_mpv_and_play(false), None);
    assert_eq!(a.status, "Playlist-ul nu există. Apasă „Descarcă” întâi.");
    assert!(!a.is_busy());
    assert_eq!(a.start_ensure_mpv_and_play(true), Some("TV_1.m3u".to_string()));
    assert!(a.is_busy());
    assert_eq!(a.start_ensure_mpv_and_play(true), None);
}

#[test]
fn the_job_keeps_the_user_informed() {
    let mut a = app(&[]);
    a.start_job();
    a.poll_job_messages(vec![
        status("x"),
        JobMsg::Progress { current: 2_500_000, total: Some(7_000_000) },
        status("y"),
    ]);
    assert_eq!(a.status, "y");
    assert_eq!(a.progress_text(), Some("2 / 7 MB".to_string()));
    assert_eq!(a.progress_parts(), Some((2_500_000, 7_000_000)));
    assert!(a.is_busy());
    a.poll_job_messages(vec![]);
    assert!(a.is_busy());
    a.poll_job_messages(vec![done("z")]);
    assert_eq!(a.status, "z");
    assert_eq!((a.progress_current, a.progress_total), (0, None));
    assert!(!a.is_busy());
}

#[test]
fn an_error_counts_for_more_than_success() {
    let mut a = app(&[]);
    a.start_job();
    a.poll_job_messages(vec![error("e1"), error("e2"), done("d"), status("s")]);
    assert_eq!(a.status, "Eroare: e2");
    assert!(a.status_is_error());
    assert!(!a.is_busy());
}

#[test]
fn messages_without_a_job_are_ignored() {
    let mut a = app(&[]);
    a.poll_job_messages(vec![status("s"), done("d"), error("e")]);
    assert_eq!(a.status, "Gata");
}

#[test]
fn messages_can_come_in_portions() {
    let mut a = app(&[]);
    a.start_job();
    a.poll_job_messages(vec![status("s")]);
    a.poll_job_messages(vec![JobMsg::Progress { current: 1, total: None }, done("d")]);
    let mut b = app(&[]);
    b.start_job();
    b.poll_job_messages(vec![
        status("s"),
        JobMsg::Progress { current: 1, total: None },
        done("d"),
    ]);
    assert_eq!(a.status, b.status);
    assert_eq!(a.is_busy(), b.is_busy());
}

#[test]
fn progress_is_shown_in_megabytes() {
    let mut a = app(&[]);
    a.progress_current = 5_999_999;
    assert_eq!(a.progress_text(), None);
    a.start_job();
    assert_eq!(a.progress_text(), None);
    a.progress_current = 5_999_999;
    assert_eq!(a.progress_text(), Some("5 MB".to_string()));
    assert_eq!(a.progress_parts(), None);
    a.progress_total = Some(0);
    assert_eq!(a.progress_text(), Some("5 / 0 MB".to_string()));
    assert_eq!(a.progress_parts(), None);
}

#[test]
fn errors_are_told_by_their_word() {
    let mut a = app(&[]);
    for (s, e) in [
        ("Eroare: x", true),
        ("EROARE", true),
        ("o eroare", true),
        ("Eroar", false),
        ("Șters", false),
        ("ΑΣ eroARE", true),
    ] {
        a.status = s.to_string();
        assert_eq!(a.status_is_error(), e, "{}", s);
        assert_eq!(s.to_lowercase().contains("eroare"), e);
    }
}

#[test]
fn the_selected_subscription_is_deleted() {
    let mut a = app(&["a", "b", "c", "b"]);
    assert!(!a.delete_selected());
    assert_eq!(a.status, "Selectează un abonament.");
    a.select(1);
    assert!(a.delete_selected());
    assert_eq!(ids(&a), vec!["a", "c"]);
    assert_eq!(a.selected_id, None);
    a.after_delete(Ok(()));
    assert_eq!(a.status, "Abonament șters.");
    assert!(!a.delete_selected());
    assert_eq!(ids(&a), vec!["a", "c"]);
}

#[test]
fn a_deletion_that_is_not_saved_is_reported() {
    let mut a = app(&["a"]);
    a.select(0);
    assert!(a.delete_selected());
    a.after_delete(Err("disc plin".to_string()));
    assert_eq!(a.status, "Eroare la salvare: disc plin");
    assert!(a.status_is_error());
}

#[test]
fn what_is_not_on_the_list_is_not_deleted() {
    let mut a = app(&["a"]);
    a.selected_id = Some("x".to_string());
    assert!(a.selected_sub().is_none());
    assert!(!a.delete_selected());
    assert_eq!(a.status, "Nu am găsit abonamentul pentru ștergere.");
    assert_eq!(a.selected_id, None);
    assert_eq!(ids(&a), vec!["a"]);
}

#[test]
fn a_subscription_is_added_at_the_end() {
    let mut a = app(&["a"]);
    a.form.name = "  Nou ".to_string();
    let kind = SubType::M3u { url: "u".to_string() };
    assert_eq!(a.add_subscription_as(kind, "n".to_string(), moment()), Some("Nou".to_string()));
    assert_eq!(ids(&a), vec!["a", "n"]);
    assert_eq!(a.data.subs[1].name, "Nou");
    assert_eq!(a.data.subs[1].added, moment());
    a.after_add("Nou", Ok(()));
    assert_eq!(a.status, "Adăugat: Nou");
    assert_eq!(a.form.name, "");
    a.select(1);
    assert!(a.delete_selected());
    assert_eq!(ids(&a), vec!["a"]);
}

#[test]
fn a_subscription_needs_a_name() {
    let mut a = app(&[]);
    a.form.name = " \t".to_string();
    assert_eq!(a.add_subscription(SubType::M3u { url: "u".to_string() }), None);
    assert_eq!(a.status, "Numele este obligatoriu.");
    assert!(a.data.subs.is_empty());
}

#[test]
fn identifiers_are_random_and_moments_present() {
    let mut a = app(&[]);
    a.form.name = "x".to_string();
    a.add_subscription(SubType::M3u { url: "u".to_string() });
    a.add_subscription(SubType::M3u { url: "u".to_string() });
    for s in &a.data.subs {
        assert_eq!(s.id.len(), 36);
        for (i, c) in s.id.chars().enumerate() {
            match i {
                8 | 13 | 18 | 23 => assert_eq!(c, '-'),
                14 => assert_eq!(c, '4'),
                19 => assert!("89ab".contains(c)),
                _ => assert!("0123456789abcdef".contains(c)),
            }
        }
        assert!(s.added.secs > 1_700_000_000);
        assert!(s.added.nanos < 1_000_000_000);
    }
    assert_ne!(a.data.subs[0].id, a.data.subs[1].id);
}

#[test]
fn an_addition_that_is_not_saved_keeps_the_form() {
    let mut a = app(&[]);
    a.form.name = "x".to_string();
    a.form.url = "u".to_string();
    a.set_open(Dialog::M3u, true);
    let name = a.press_dialog(Dialog::M3u, false, true).unwrap();
    a.after_add(&name, Err("r".to_string()));
    assert_eq!(a.status, "Eroare la salvare: r");
    assert_eq!(a.form.name, "x");
    assert_eq!(a.form.url, "u");
    assert_eq!(a.data.subs.len(), 1);
}

#[test]
fn clearing_empties_every_field() {
    let mut a = app(&[]);
    for field in [
        &mut a.form.name,
        &mut a.form.url,
        &mut a.form.host,
        &mut a.form.user,
        &mut a.form.pass,
        &mut a.form.portal,
        &mut a.form.mac,
        &mut a.form.mag_pass,
    ] {
        field.push('x');
    }
    a.clear_form();
    for field in [
        &a.form.name,
        &a.form.url,
        &a.form.host,
        &a.form.user,
        &a.form.pass,
        &a.form.portal,
        &a.form.mac,
        &a.form.mag_pass,
    ] {
        assert_eq!(field, "");
    }
}

#[test]
fn buttons_close_their_dialog() {
    let mut a = app(&[]);
    for d in [Dialog::M3u, Dialog::Xtream, Dialog::Mag] {
        assert!(!a.is_open(d));
        a.set_open(d, true);
        assert_eq!(a.press_dialog(d, false, false), None);
        assert!(a.is_open(d));
        assert_eq!(a.press_dialog(d, true, false), None);
        assert!(!a.is_open(d));
        assert_eq!(a.status, "Gata");
    }
}

#[test]
fn forms_must_be_complete() {
    for (d, line) in [
        (Dialog::M3u, "URL M3U este obligatoriu."),
        (Dialog::Xtream, "Completează toate câmpurile."),
        (Dialog::Mag, "Portal URL și MAC sunt obligatorii."),
    ] {
        let mut a = app(&[]);
        a.form.name = "n".to_string();
        a.form.url = " ".to_string();
        a.form.host = "h".to_string();
        a.form.user = "u".to_string();
        a.form.portal = "p".to_string();
        a.set_open(d, true);
        assert_eq!(a.press_dialog(d, false, true), None);
        assert_eq!(a.status, line);
        assert!(!a.is_open(d));
        assert!(a.data.subs.is_empty());
    }
}

#[test]
fn forms_describe_subscriptions() {
    let mut a = app(&[]);
    a.form.name = "n".to_string();
    a.form.url = " http://m ".to_string();
    a.form.host = " h ".to_string();
    a.form.user = " u ".to_string();
    a.form.pass = " p ".to_string();
    a.form.portal = " o ".to_string();
    a.form.mac = " m ".to_string();
    a.form.mag_pass = " ".to_string();
    assert!(matches!(a.form.describe(Dialog::M3u), Ok(SubType::M3u { url }) if url == "http://m"));
    assert!(matches!(
        a.form.describe(Dialog::Xtream),
        Ok(SubType::Xtream { host, username, password })
            if host == "h" && username == "u" && password == "p"
    ));
    assert!(matches!(
        a.form.describe(Dialog::Mag),
        Ok(SubType::Mag { portal_url, mac, password: None }) if portal_url == "o" && mac == "m"
    ));
    a.form.mag_pass = " s ".to_string();
    assert!(matches!(
        a.leave_dialog(Dialog::Mag, false, true),
        Some(SubType::Mag { password: Some(p), .. }) if p == "s"
    ));
    assert_eq!(a.press_dialog(Dialog::Mag, false, true), Some("n".to_string()));
    assert_eq!(a.data.subs.len(), 1);
}

#[test]
fn nothing_is_deleted_while_a_job_runs() {
    let mut a = app(&["a", "b"]);
    a.select(1);
    assert!(a.start_job());
    a.status = "s".to_string();
    assert!(!a.press_delete());
    assert_eq!(ids(&a), vec!["a", "b"]);
    assert_eq!(a.selected_id, Some("b".to_string()));
    assert_eq!(a.status, "s");
    assert!(a.is_busy());
    a.poll_job_messages(vec![done("d")]);
    assert!(a.press_delete());
    assert_eq!(ids(&a), vec!["a"]);
    assert_eq!(a.selected_id, None);
    assert!(!a.press_delete());
    assert_eq!(a.status, "Selectează un abonament.");
}

#[test]
fn a_blank_name_leaves_the_list_alone() {
    let mut a = app(&["a"]);
    a.form.name = " \t".to_string();
    assert_eq!(a.add_subscription(SubType::M3u { url: "u".to_string() }), None);
    assert_eq!(a.status, "Numele este obligatoriu.");
    assert_eq!(ids(&a), vec!["a"]);
    a.form.url = "http://u".to_string();
    a.set_open(Dialog::M3u, true);
    a.status = String::new();
    assert_eq!(a.press_dialog(Dialog::M3u, false, true), None);
    assert_eq!(a.status, "Numele este obligatoriu.");
    assert!(!a.is_open(Dialog::M3u));
    assert_eq!(ids(&a), vec!["a"]);
}

#[test]
fn names_and_fields_on_the_list_stay_trimmed() {
    let mut a = App::new(None);
    for name in [" A ", "\tB b"] {
        a.form.name = name.to_string();
        a.form.host = " http://h ".to_string();
        a.form.user = " u".to_string();
        a.form.pass = "p ".to_string();
        let added = a.press_dialog(Dialog::Xtream, false, true).unwrap();
        a.after_add(&added, Ok(()));
    }
    a.start_job();
    a.poll_job_messages(vec![status("s"), done(" d ")]);
    a.select(0);
    assert!(a.press_delete());
    assert_eq!(a.data.subs.len(), 1);
    assert_eq!(a.data.subs[0].name, "B b");
    assert!(matches!(
        &a.data.subs[0].kind,
        SubType::Xtream { host, username, password }
            if host == "http://h" && username == "u" && password == "p"
    ));
}
