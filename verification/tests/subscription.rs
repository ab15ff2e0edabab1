use iptv_manager::clock::{Timestamp, FIRST_SECOND, LAST_SECOND};
use iptv_manager::subscription::{
    build_playlist_url, playlist_file_name, sanitized_filename, subscription_label, SubType,
    Subscription,
};

fn sub(name: &str, kind: SubType, secs: i64) -> Subscription {
    Subscription {
        id: "id".to_string(),
        name: name.to_string(),
        kind,
        added: Timestamp::new(secs, 0).unwrap(),
    }
}

fn m3u(url: &str) -> SubType {
    SubType::M3u { url: url.to_string() }
}

fn xtream(host: &str) -> SubType {
    SubType::Xtream {
        host: host.to_string(),
        username: "u".to_string(),
        password: "p".to_string(),
    }
}

fn mag(portal_url: &str, password: Option<&str>) -> SubType {
    SubType::Mag {
        portal_url: portal_url.to_string(),
        mac: "00:1A:79".to_string(),
        password: password.map(|p| p.to_string()),
    }
}

#[test]
fn file_names_hold_letters_digits_underscores_and_hyphens() {
    assert_eq!(sanitized_filename("My TV-1_x"), "My_TV-1_x");
    assert_eq!(sanitized_filename("../a\\b:c."), "___a_b_c_");
    assert_eq!(sanitized_filename("Știri №1"), "Știri__1");
    assert_eq!(sanitized_filename("²½"), "²½");
    assert_eq!(sanitized_filename(""), "");
}

#[test]
fn sanitizing_twice_changes_nothing() {
    for name in ["a b", "ș/ț", "___", "x.m3u"] {
        let once = sanitized_filename(name);
        assert_eq!(sanitized_filename(&once), once);
    }
}

#[test]
fn letters_and_digits_are_those_of_unicode() {
    for n in 0..=0x2ffffu32 {
        if let Some(c) = char::from_u32(n) {
            let expected = if c.is_alphanumeric() || c == '_' || c == '-' { c } else { '_' };
            assert_eq!(sanitized_filename(&c.to_string()), expected.to_string());
        }
    }
}

#[test]
fn playlist_files_are_named_after_the_subscription() {
    assert_eq!(playlist_file_name(&sub("A b", m3u("x"), 0)), "A_b.m3u");
}

#[test]
fn playlist_of_a_plain_address_is_there() {
    assert_eq!(build_playlist_url(&sub("n", m3u("http://a/b.m3u/"), 0)), "http://a/b.m3u/");
}

#[test]
fn playlist_of_an_xtream_server() {
    let expected = "http://h:80/get.php?username=u&password=p&type=m3u_plus";
    assert_eq!(build_playlist_url(&sub("n", xtream("http://h:80"), 0)), expected);
    assert_eq!(build_playlist_url(&sub("n", xtream("http://h:80//"), 0)), expected);
}

#[test]
fn playlist_of_a_mag_portal() {
    assert_eq!(
        build_playlist_url(&sub("n", mag("http://p/c/", Some("s")), 0)),
        "http://p/c/panel_api.php?mac=00:1A:79&password=s"
    );
    assert_eq!(
        build_playlist_url(&sub("n", mag("http://p", None), 0)),
        "http://p/panel_api.php?mac=00:1A:79&password="
    );
    assert_eq!(
        build_playlist_url(&sub("n", mag("http://p", None), 0)),
        build_playlist_url(&sub("n", mag("http://p", Some("")), 0))
    );
}

#[test]
fn labels_show_name_kind_and_day() {
    assert_eq!(subscription_label(&sub("TV", m3u("x"), 0)), "TV (M3U) — 1970-01-01");
    assert_eq!(
        subscription_label(&sub("TV", xtream("x"), 1431648000)),
        "TV (Xtream) — 2015-05-15"
    );
    assert_eq!(subscription_label(&sub("TV", mag("x", None), -1)), "TV (MAG) — 1969-12-31");
}

#[test]
fn days_of_unusual_years_carry_a_sign() {
    assert_eq!(subscription_label(&sub("", m3u("x"), 951782400)), " (M3U) — 2000-02-29");
    assert_eq!(subscription_label(&sub("", m3u("x"), -62167219200)), " (M3U) — 0000-01-01");
    assert_eq!(subscription_label(&sub("", m3u("x"), -62167219201)), " (M3U) — -0001-12-31");
    assert_eq!(subscription_label(&sub("", m3u("x"), 253402300800)), " (M3U) — +10000-01-01");
    assert_eq!(subscription_label(&sub("", m3u("x"), FIRST_SECOND)), " (M3U) — -262143-01-01");
    assert_eq!(subscription_label(&sub("", m3u("x"), LAST_SECOND)), " (M3U) — +262142-12-31");
}

#[test]
fn moments_outside_the_calendar_are_refused() {
    assert!(Timestamp::new(FIRST_SECOND, 0).is_some());
    assert!(Timestamp::new(FIRST_SECOND - 1, 0).is_none());
    assert!(Timestamp::new(LAST_SECOND, 999_999_999).is_some());
    assert!(Timestamp::new(LAST_SECOND + 1, 0).is_none());
    assert!(Timestamp::new(59, 1_999_999_999).is_some());
    assert!(Timestamp::new(58, 1_000_000_000).is_none());
    assert!(Timestamp::new(-1, 1_000_000_000).is_some());
    assert!(Timestamp::new(59, 2_000_000_000).is_none());
    for secs in [FIRST_SECOND - 1, FIRST_SECOND, -61, -1, 0, 58, 59, LAST_SECOND, LAST_SECOND + 1] {
        for nanos in [0, 999_999_999, 1_000_000_000, 1_999_999_999, 2_000_000_000] {
            assert_eq!(
                Timestamp::new(secs, nanos).is_some(),
                chrono::DateTime::<chrono::Utc>::from_timestamp(secs, nanos).is_some()
            );
        }
    }
}

#[test]
fn a_joined_name_is_sanitized_part_by_part() {
    assert_eq!(sanitized_filename("a b/ș."), sanitized_filename("a b") + &sanitized_filename("/ș."));
}

#[test]
fn any_number_of_slashes_may_end_a_server() {
    for n in 0..5 {
        let host = format!("http://p{}", "/".repeat(n));
        assert_eq!(
            build_playlist_url(&sub("n", xtream(&host), 0)),
            "http://p/get.php?username=u&password=p&type=m3u_plus"
        );
        assert_eq!(
            build_playlist_url(&sub("n", mag(&host, Some("s")), 0)),
            "http://p/panel_api.php?mac=00:1A:79&password=s"
        );
    }
}
