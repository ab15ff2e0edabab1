use iptv_manager::jobs::{
    download_step, download_to_file_with_progress, DownloadEvent, DownloadStage, JobMsg, PlayEvent,
    PlayJob, PlayStage, SaveOutcome,
};

/// Messages in a form that can be compared.
fn shown(msgs: &[JobMsg]) -> Vec<String> {
    msgs.iter()
        .map(|m| match m {
            JobMsg::Status(s) => format!("status {}", s),
            JobMsg::Progress { current, total } => format!("progress {} {:?}", current, total),
            JobMsg::Done(s) => format!("done {}", s),
            JobMsg::Error(e) => format!("error {}", e),
        })
        .collect()
}

fn download(events: Vec<DownloadEvent>) -> (DownloadStage, Vec<String>) {
    let mut stage = DownloadStage::Client;
    let mut told = Vec::new();
    for event in events {
        let (next, msgs) = download_step(stage, event);
        stage = next;
        told.extend(shown(&msgs));
    }
    (stage, told)
}

fn copied(bytes: u64) -> DownloadEvent {
    DownloadEvent::Copied { bytes, path: "/p/a.m3u".to_string() }
}

fn reply(code: u16) -> DownloadEvent {
    DownloadEvent::Reply { code, total: Some(10) }
}

#[test]
fn a_playlist_is_downloaded() {
    let (stage, told) = download(vec![
        DownloadEvent::Ready,
        reply(200),
        DownloadEvent::Ready,
        copied(10),
    ]);
    assert_eq!(stage, DownloadStage::Over);
    assert_eq!(
        told,
        vec!["status Conectare...", "progress 10 Some(10)", "done Playlist salvat: /p/a.m3u"]
    );
}

#[test]
fn a_playlist_download_can_fail_anywhere() {
    assert_eq!(
        download(vec![DownloadEvent::Failed]),
        (DownloadStage::Over, vec!["error Nu pot inițializa clientul HTTP".to_string()])
    );
    assert_eq!(
        download(vec![DownloadEvent::Ready, DownloadEvent::Failed]).1[1],
        "error Cererea HTTP a eșuat"
    );
    assert_eq!(
        download(vec![DownloadEvent::Ready, reply(404)]).1[1],
        "error HTTP 404 Not Found"
    );
    assert_eq!(
        download(vec![DownloadEvent::Ready, reply(200), DownloadEvent::Failed]).1[1],
        "error Nu pot crea fișierul playlist"
    );
    assert_eq!(
        download(vec![
            DownloadEvent::Ready,
            reply(200),
            DownloadEvent::Ready,
            DownloadEvent::Failed
        ])
        .1[1],
        "error Eroare la copiere"
    );
}

#[test]
fn a_job_has_one_last_word() {
    let (stage, told) = download(vec![
        DownloadEvent::Failed,
        DownloadEvent::Ready,
        DownloadEvent::Failed,
        copied(1),
    ]);
    assert_eq!(stage, DownloadStage::Over);
    assert_eq!(told.len(), 1);
}

#[test]
fn an_event_out_of_place_changes_nothing() {
    assert_eq!(download(vec![copied(3), reply(200)]), (DownloadStage::Client, vec![]));
}

#[test]
fn a_file_is_downloaded() {
    let go = |stage, event| download_to_file_with_progress(stage, event, "http://u", "/f");
    assert!(matches!(
        go(DownloadStage::Request, reply(200)),
        SaveOutcome::Next(DownloadStage::Create { total: Some(10) })
    ));
    assert!(matches!(
        go(DownloadStage::Create { total: None }, DownloadEvent::Ready),
        SaveOutcome::Next(DownloadStage::Copy { total: None })
    ));
    assert!(matches!(
        go(DownloadStage::Copy { total: Some(4) }, copied(3)),
        SaveOutcome::Finished(JobMsg::Progress { current: 3, total: Some(4) })
    ));
}

#[test]
fn a_file_download_can_fail_anywhere() {
    let fail = |stage, event| match download_to_file_with_progress(stage, event, "http://u", "/f") {
        SaveOutcome::Failed(e) => e,
        _ => panic!("no failure"),
    };
    assert_eq!(fail(DownloadStage::Request, DownloadEvent::Failed), "Descărcarea a eșuat: http://u");
    assert_eq!(fail(DownloadStage::Request, reply(500)), "HTTP 500 Internal Server Error la http://u");
    assert_eq!(
        fail(DownloadStage::Create { total: None }, DownloadEvent::Failed),
        "Nu pot crea fișier: /f"
    );
    assert_eq!(
        fail(DownloadStage::Copy { total: None }, DownloadEvent::Failed),
        "Eroare la copiere stream"
    );
}

fn play(events: Vec<PlayEvent>) -> (PlayJob, Vec<String>) {
    let mut job = PlayJob::new();
    let mut told = Vec::new();
    for event in events {
        let msgs = job.step(event);
        told.extend(shown(&msgs));
    }
    (job, told)
}

fn body(text: &str) -> PlayEvent {
    PlayEvent::Body(Some(text.to_string()))
}

fn good_body() -> PlayEvent {
    body(r#"{"assets": [{"name": "mpv-x86_64.7z", "browser_download_url": "http://a"}]}"#)
}

fn answer(code: u16) -> PlayEvent {
    PlayEvent::Reply { code, total: Some(9) }
}

fn failed() -> PlayEvent {
    PlayEvent::Failed("why".to_string())
}

#[test]
fn the_player_is_installed_and_started() {
    let (job, told) = play(vec![
        PlayEvent::Ready,
        good_body(),
        PlayEvent::Ready,
        answer(200),
        PlayEvent::Ready,
        PlayEvent::Chunk(4),
        PlayEvent::Chunk(5),
        PlayEvent::BodyEnd,
        PlayEvent::Ready,
        PlayEvent::Found,
        PlayEvent::Ready,
    ]);
    assert_eq!(job.stage, PlayStage::Over);
    assert_eq!(job.url, "http://a");
    assert_eq!(
        told,
        vec![
            "status Caut ultima versiune mpv...",
            "status Descarc mpv...",
            "progress 4 Some(9)",
            "progress 9 Some(9)",
            "status Extrag mpv...",
            "status Pornesc redarea...",
            "done Redare pornită.",
        ]
    );
}

#[test]
fn playing_can_fail_anywhere() {
    let last = |events| play(events).1.pop().unwrap();
    assert_eq!(last(vec![failed()]), "error why");
    assert_eq!(last(vec![PlayEvent::Ready, failed()]), "error why");
    assert_eq!(
        last(vec![PlayEvent::Ready, PlayEvent::Body(None)]),
        "error error decoding response body"
    );
    assert_eq!(last(vec![PlayEvent::Ready, body("{")]), "error error decoding response body");
    assert_eq!(last(vec![PlayEvent::Ready, body("{}")]), "error Nu pot citi assets din release");
    assert_eq!(
        last(vec![PlayEvent::Ready, body(r#"{"assets": []}"#)]),
        "error Nu găsesc arhiva mpv-x86_64 în release"
    );
    assert_eq!(
        last(vec![PlayEvent::Ready, good_body(), PlayEvent::Ready, answer(503)]),
        "error HTTP 503 Service Unavailable la mpv"
    );
    let mut events = vec![
        PlayEvent::Ready,
        good_body(),
        PlayEvent::Ready,
        answer(200),
        PlayEvent::Ready,
        PlayEvent::BodyEnd,
    ];
    events.push(failed());
    assert_eq!(last(events), "error Eroare extragere: why");
    assert_eq!(
        last(vec![
            PlayEvent::Ready,
            good_body(),
            PlayEvent::Ready,
            answer(200),
            PlayEvent::Ready,
            PlayEvent::BodyEnd,
            PlayEvent::Ready,
            PlayEvent::NotFound,
        ]),
        "error Nu găsesc mpv.exe după extragere"
    );
}

#[test]
fn a_job_that_is_over_says_nothing_more() {
    let (job, told) = play(vec![failed(), PlayEvent::Ready, good_body(), failed()]);
    assert_eq!(job.stage, PlayStage::Over);
    assert_eq!(told, vec!["error why"]);
}

#[test]
fn the_end_is_told_only_when_the_player_started() {
    let start = || {
        vec![
            PlayEvent::Ready,
            good_body(),
            PlayEvent::Ready,
            answer(200),
            PlayEvent::Ready,
            PlayEvent::BodyEnd,
            PlayEvent::Ready,
            PlayEvent::Found,
        ]
    };
    let (job, told) = play(start());
    assert_eq!(job.stage, PlayStage::Launch);
    assert_eq!(told.last().unwrap(), "status Pornesc redarea...");
    let mut well = start();
    well.push(PlayEvent::Ready);
    assert_eq!(
        play(well).1,
        vec![
            "status Caut ultima versiune mpv...",
            "status Descarc mpv...",
            "status Extrag mpv...",
            "status Pornesc redarea...",
            "done Redare pornită.",
        ]
    );
    let mut badly = start();
    badly.push(failed());
    assert!(play(badly).1.iter().all(|m| !m.starts_with("done")));
}

#[test]
fn progress_counts_the_bytes_of_all_pieces() {
    let sizes: [u64; 5] = [3, 1, 0, 7, 2];
    let mut events = vec![
        PlayEvent::Ready,
        good_body(),
        PlayEvent::Ready,
        PlayEvent::Reply { code: 206, total: Some(13) },
        PlayEvent::Ready,
    ];
    events.extend(sizes.iter().map(|n| PlayEvent::Chunk(*n)));
    events.push(PlayEvent::BodyEnd);
    events.push(PlayEvent::Chunk(9));
    let (job, told) = play(events);
    assert_eq!(job.stage, PlayStage::Extract);
    assert_eq!(
        told[2..],
        [
            "progress 3 Some(13)",
            "progress 4 Some(13)",
            "progress 4 Some(13)",
            "progress 11 Some(13)",
            "progress 13 Some(13)",
            "status Extrag mpv...",
        ]
    );
}
