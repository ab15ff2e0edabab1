use iptv_manager::release::{
    check_release_reply, fetch_latest_mpv_asset_url, install_asset_url, latest_asset_url,
    release_assets, Asset, ReleaseError,
};

fn asset(name: Option<&str>, url: Option<&str>) -> Asset {
    Asset { name: name.map(|s| s.to_string()), url: url.map(|s| s.to_string()) }
}

#[test]
fn the_first_player_archive_is_taken() {
    let body = r#"{"assets": [
        {"name": "ffmpeg-x86_64.7z", "browser_download_url": "u0"},
        {"name": "mpv-dev-ffmpeg-x86_64.7z", "browser_download_url": "u1"},
        {"name": "mpv-aarch64.7z", "browser_download_url": "u2"},
        {"name": "mpv-x86_64.zip", "browser_download_url": "u3"},
        {"name": "mpv-dev-x86_64.7z", "browser_download_url": "u4"},
        {"name": "mpv-x86_64-v3.7z", "browser_download_url": "u5"}
    ]}"#;
    assert_eq!(fetch_latest_mpv_asset_url(Some(body)), Ok("u4".to_string()));
}

#[test]
fn an_archive_without_address_gives_an_empty_one() {
    let body = r#"{"assets": [{"name": "mpv-x86_64.7z"}]}"#;
    assert_eq!(fetch_latest_mpv_asset_url(Some(body)), Ok(String::new()));
}

#[test]
fn releases_that_cannot_be_used_are_refused() {
    assert_eq!(fetch_latest_mpv_asset_url(None), Err(ReleaseError::UnreadableBody));
    assert_eq!(fetch_latest_mpv_asset_url(Some("{")), Err(ReleaseError::InvalidJson));
    assert_eq!(fetch_latest_mpv_asset_url(Some("{}")), Err(ReleaseError::NoAssets));
    assert_eq!(fetch_latest_mpv_asset_url(Some("[1]")), Err(ReleaseError::NoAssets));
    assert_eq!(
        fetch_latest_mpv_asset_url(Some(r#"{"assets": {"a": 1}}"#)),
        Err(ReleaseError::NoAssets)
    );
    assert_eq!(
        fetch_latest_mpv_asset_url(Some(r#"{"assets": []}"#)),
        Err(ReleaseError::NoArchive)
    );
    assert_eq!(
        fetch_latest_mpv_asset_url(Some(r#"{"assets": [3, {"name": 4}, null]}"#)),
        Err(ReleaseError::NoArchive)
    );
}

#[test]
fn the_release_service_must_answer_with_success() {
    assert_eq!(check_release_reply(None), Err(ReleaseError::RequestFailed));
    assert_eq!(check_release_reply(Some(200)), Ok(()));
    assert_eq!(check_release_reply(Some(299)), Ok(()));
    assert_eq!(check_release_reply(Some(199)), Err(ReleaseError::Status(199)));
    assert_eq!(check_release_reply(Some(403)), Err(ReleaseError::Status(403)));
}

#[test]
fn errors_are_reported_in_words() {
    assert_eq!(ReleaseError::RequestFailed.message(), "Nu pot interoga GitHub API");
    assert_eq!(ReleaseError::Status(403).message(), "HTTP 403 Forbidden la GitHub API");
    assert_eq!(
        ReleaseError::Status(799).message(),
        "HTTP 799 <unknown status code> la GitHub API"
    );
    assert_eq!(ReleaseError::UnreadableBody.message(), "Nu pot citi corpul răspunsului GitHub");
    assert_eq!(ReleaseError::InvalidJson.message(), "JSON invalid GitHub");
    assert_eq!(ReleaseError::NoAssets.message(), "Nu există assets în release");
    assert_eq!(ReleaseError::NoArchive.message(), "Nu am găsit asset mpv x86_64 .7z");
}

#[test]
fn the_files_of_a_release_are_read_in_order() {
    let assets = release_assets(
        r#"{"assets": [{"name": "a", "browser_download_url": "b"}, {"name": null}, "x"]}"#,
    )
    .unwrap()
    .unwrap();
    assert_eq!(assets.len(), 3);
    assert_eq!(assets[0].name.as_deref(), Some("a"));
    assert_eq!(assets[0].url.as_deref(), Some("b"));
    assert_eq!(assets[1].name, None);
    assert_eq!(assets[1].url, None);
    assert_eq!(assets[2].name, None);
    assert!(release_assets("null").unwrap().is_none());
    assert!(matches!(release_assets(""), Err(ReleaseError::InvalidJson)));
}

#[test]
fn the_player_is_installed_from_the_first_install_archive() {
    let list = Some(vec![
        asset(None, Some("u0")),
        asset(Some("mpv-i686.7z"), Some("u1")),
        asset(Some("mpv-x86_64.exe"), Some("u2")),
        asset(Some("mpv-x86_64-2024.7z"), Some("u3")),
        asset(Some("mpv-x86_64-v3.7z"), Some("u4")),
    ]);
    assert_eq!(install_asset_url(&list), Ok("u3".to_string()));
    assert_eq!(install_asset_url(&None), Err(ReleaseError::NoAssets));
    assert_eq!(install_asset_url(&Some(vec![])), Err(ReleaseError::NoArchive));
}

#[test]
fn an_install_archive_without_address_ends_the_search() {
    let list = Some(vec![
        asset(Some("mpv-x86_64.7z"), None),
        asset(Some("mpv-x86_64-v3.7z"), Some("u")),
    ]);
    assert_eq!(install_asset_url(&list), Err(ReleaseError::NoArchive));
}

#[test]
fn the_two_choices_differ() {
    let list = Some(vec![
        asset(Some("old-mpv-x86_64-ffmpeg.7z"), Some("u1")),
        asset(Some("mpv-dev-x86_64.7z"), Some("u2")),
    ]);
    assert_eq!(install_asset_url(&list), Ok("u1".to_string()));
    assert_eq!(latest_asset_url(&list), Ok("u2".to_string()));
}
