use iptv_manager::player::{
    probe_latest_mpv_version, read_installed_mpv_version, version_from_url, Probe, ProbeOutcome,
    ProbeReply,
};

fn reply(code: u16) -> Option<ProbeReply> {
    Some(ProbeReply { code, url: "https://x/y/mpv-1.7z?viasf=1".to_string() })
}

#[test]
fn versions_are_the_last_part_of_an_address() {
    assert_eq!(version_from_url("https://x/y/mpv-1.7z?a=b/c"), "mpv-1.7z");
    assert_eq!(version_from_url("https://x/y/ mpv-1.7z "), "mpv-1.7z");
    assert_eq!(version_from_url("https://x/y/"), "");
    assert_eq!(version_from_url("mpv"), "mpv");
    assert_eq!(version_from_url("?q"), "");
    assert_eq!(version_from_url(""), "");
}

#[test]
fn query_and_directories_do_not_change_the_version() {
    let plain = version_from_url("/v1");
    assert_eq!(version_from_url("/v1?q/x"), plain);
    assert_eq!(version_from_url("https://a/b/v1"), plain);
}

#[test]
fn the_installed_version_is_read() {
    assert_eq!(read_installed_mpv_version(Some(" v1 \n")), Some("v1".to_string()));
    assert_eq!(read_installed_mpv_version(Some(" \n")), None);
    assert_eq!(read_installed_mpv_version(None), None);
}

#[test]
fn headers_decide_the_latest_version() {
    assert!(matches!(
        probe_latest_mpv_version(Probe::Head, reply(200)),
        ProbeOutcome::Version(v) if v == "mpv-1.7z"
    ));
    assert!(matches!(
        probe_latest_mpv_version(Probe::Head, reply(404)),
        ProbeOutcome::Ask(Probe::FirstByte)
    ));
    assert!(matches!(
        probe_latest_mpv_version(Probe::Head, None),
        ProbeOutcome::Ask(Probe::FirstByte)
    ));
}

#[test]
fn the_first_byte_decides_where_headers_do_not() {
    assert!(matches!(
        probe_latest_mpv_version(Probe::FirstByte, reply(206)),
        ProbeOutcome::Version(v) if v == "mpv-1.7z"
    ));
    assert!(matches!(
        probe_latest_mpv_version(Probe::FirstByte, reply(500)),
        ProbeOutcome::Unknown
    ));
    assert!(matches!(probe_latest_mpv_version(Probe::FirstByte, None), ProbeOutcome::Unknown));
}

#[test]
fn a_version_is_its_own_version() {
    for url in ["https://x/y/ mpv-1.7z ?a=b/c", "mpv", "https://x/", ""] {
        let version = version_from_url(url);
        assert_eq!(version_from_url(&version), version);
    }
    assert_eq!(version_from_url("https://x/y/?q=v1"), "");
}
