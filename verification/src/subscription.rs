//! Subscriptions: what is known of each, what it is called on the screen and on
//! disk, and where its playlist can be had.

use vstd::prelude::*;
use vstd::string::*;

use crate::clock::{date_of, day_text, law_date_of_number, Date, Timestamp};
use crate::release::{or_empty, text_model};
use crate::text::{
    is_ascii_char, is_letter_or_digit, law_trailing_characters_are_taken_off, trim_end_matches,
    unicode_alphanumeric, without_trailing,
};

verus! {

/// The three kinds of subscription and how each is reached.
#[allow(inconsistent_fields)]
#[derive(Debug)]
pub enum SubType {
    M3u { url: String },
    Xtream { host: String, username: String, password: String },
    Mag { portal_url: String, mac: String, password: Option<String> },
}

/// A subscription.
#[derive(Debug)]
pub struct Subscription {
    pub id: String,
    pub name: String,
    pub kind: SubType,
    pub added: Timestamp,
}

/// A [`SubType`] in the mathematical model.
#[allow(inconsistent_fields)]
pub enum SubTypeModel {
    M3u { url: Seq<char> },
    Xtream { host: Seq<char>, username: Seq<char>, password: Seq<char> },
    Mag { portal_url: Seq<char>, mac: Seq<char>, password: Option<Seq<char>> },
}

/// A [`Subscription`] in the mathematical model.
pub struct SubModel {
    pub id: Seq<char>,
    pub name: Seq<char>,
    pub kind: SubTypeModel,
    pub added: Timestamp,
}

impl View for SubType {
    type V = SubTypeModel;

    open spec fn view(&self) -> SubTypeModel {
        match *self {
            SubType::M3u { url } => SubTypeModel::M3u { url: url@ },
            SubType::Xtream { host, username, password } => SubTypeModel::Xtream {
                host: host@,
                username: username@,
                password: password@,
            },
            SubType::Mag { portal_url, mac, password } => SubTypeModel::Mag {
                portal_url: portal_url@,
                mac: mac@,
                password: text_model(password),
            },
        }
    }
}

impl View for Subscription {
    type V = SubModel;

    open spec fn view(&self) -> SubModel {
        SubModel { id: self.id@, name: self.name@, kind: self.kind@, added: self.added }
    }
}

// ----------------------------------------------------------- specifications

/// The character that stands for `c` in a file name.
pub open spec fn file_char(c: char) -> char {
    if is_letter_or_digit(c) || c == '_' || c == '-' {
        c
    } else {
        '_'
    }
}

/// A name as it can stand in a file name.
pub open spec fn sanitized(name: Seq<char>) -> Seq<char> {
    name.map_values(|c: char| file_char(c))
}

/// The file that holds the playlist of a subscription, inside the directory of
/// the playlists.
pub open spec fn playlist_file(sub: SubModel) -> Seq<char> {
    sanitized(sub.name) + ".m3u"@
}

/// Where the playlist of a subscription can be had.
pub open spec fn playlist_url(kind: SubTypeModel) -> Seq<char> {
    match kind {
        SubTypeModel::M3u { url } => url,
        SubTypeModel::Xtream { host, username, password } => without_trailing(host, '/')
            + "/get.php?username="@ + username + "&password="@ + password + "&type=m3u_plus"@,
        SubTypeModel::Mag { portal_url, mac, password } => without_trailing(portal_url, '/')
            + "/panel_api.php?mac="@ + mac + "&password="@ + or_empty(password),
    }
}

/// What the kind of a subscription is called.
pub open spec fn kind_name(kind: SubTypeModel) -> Seq<char> {
    match kind {
        SubTypeModel::M3u { .. } => "M3U"@,
        SubTypeModel::Xtream { .. } => "Xtream"@,
        SubTypeModel::Mag { .. } => "MAG"@,
    }
}

/// How a subscription is shown in the list.
pub open spec fn label_of(sub: SubModel) -> Seq<char> {
    sub.name + " ("@ + kind_name(sub.kind) + ") — "@ + date_of(sub.added.day()).text()
}

// ---------------------------------------------------------------- functions

/// The name as it can stand in a file name: what is neither a letter, a digit,
/// an underscore nor a hyphen becomes an underscore.
pub fn sanitized_filename(name: &str) -> (r: String)
    ensures
        r@ == sanitized(name@),
{
    let mut r = String::new();
    for c in it: name.chars()
        invariant
            it.seq() == name@,
            r@ == sanitized(name@.take(it.index())),
    {
        let kept = c.is_alphanumeric() || c == '_' || c == '-';
        if kept {
            r.push(c);
        } else {
            r.push('_');
        }
        assert(r@ =~= sanitized(name@.take(it.index() + 1)));
    }
    assert(name@.take(name@.len() as int) =~= name@);
    r
}

/// The name of the file that holds the playlist of a subscription.
pub fn playlist_file_name(sub: &Subscription) -> (r: String)
    ensures
        r@ == playlist_file(sub@),
{
    sanitized_filename(sub.name.as_str()).concat(".m3u")
}

/// Where the playlist of a subscription can be had.
pub fn build_playlist_url(sub: &Subscription) -> (r: String)
    ensures
        r@ == playlist_url(sub@.kind),
        sub.kind matches SubType::M3u { url } ==> r@ == url@,
        sub.kind matches SubType::Xtream { host, username, password } ==> r@ == without_trailing(
            host@,
            '/',
        ) + "/get.php?username="@ + username@ + "&password="@ + password@ + "&type=m3u_plus"@,
        sub.kind matches SubType::Mag { portal_url, mac, password: Some(pin) } ==> r@
            == without_trailing(portal_url@, '/') + "/panel_api.php?mac="@ + mac@ + "&password="@
            + pin@,
        sub.kind matches SubType::Mag { portal_url, mac, password: None } ==> r@
            == without_trailing(portal_url@, '/') + "/panel_api.php?mac="@ + mac@ + "&password="@,
{
    match &sub.kind {
        SubType::M3u { url } => url.clone(),
        SubType::Xtream { host, username, password } => {
            let mut r = trim_end_matches(host.as_str(), '/');
            r.append("/get.php?username=");
            r.append(username.as_str());
            r.append("&password=");
            r.append(password.as_str());
            r.append("&type=m3u_plus");
            r
        },
        SubType::Mag { portal_url, mac, password } => {
            let mut r = trim_end_matches(portal_url.as_str(), '/');
            r.append("/panel_api.php?mac=");
            r.append(mac.as_str());
            r.append("&password=");
            match password {
                Some(p) => {
                    r.append(p.as_str());
                },
                None => {
                    assert(r@ + Seq::<char>::empty() =~= r@);
                },
            }
            r
        },
    }
}

/// How a subscription is shown in the list.
pub fn subscription_label(sub: &Subscription) -> (r: String)
    requires
        sub.added.valid(),
    ensures
        r@ == label_of(sub@),
{
    let kind = match &sub.kind {
        SubType::M3u { .. } => "M3U",
        SubType::Xtream { .. } => "Xtream",
        SubType::Mag { .. } => "MAG",
    };
    let mut r = sub.name.clone();
    r.append(" (");
    r.append(kind);
    r.append(") — ");
    r.append(day_text(sub.added.secs).as_str());
    r
}

// --------------------------------------------------------------------- laws

/// A sanitized name is as long as the name and holds letters, digits,
/// underscores and hyphens only.
pub proof fn law_sanitized_is_safe(name: Seq<char>)
    ensures
        sanitized(name).len() == name.len(),
        forall|i: int|
            0 <= i < name.len() ==> {
                let c = #[trigger] sanitized(name)[i];
                is_letter_or_digit(c) || c == '_' || c == '-'
            },
{
}

/// A sanitized name never leaves the directory that it is put in: it holds no
/// separator of directories, no drive colon and no dot.
pub proof fn law_sanitized_stays_in_directory(name: Seq<char>)
    ensures
        !sanitized(name).contains('/'),
        !sanitized(name).contains('\\'),
        !sanitized(name).contains(':'),
        !sanitized(name).contains('.'),
{
    law_sanitized_is_safe(name);
    assert(is_ascii_char('/') && is_ascii_char('\\') && is_ascii_char(':') && is_ascii_char('.'));
}

/// Sanitizing a name that is sanitized already changes nothing.
pub proof fn law_sanitizing_twice(name: Seq<char>)
    ensures
        sanitized(sanitized(name)) == sanitized(name),
{
    assert(sanitized(sanitized(name)) =~= sanitized(name));
}

/// Names that are made of letters, digits, underscores and hyphens are kept.
pub proof fn law_safe_names_are_kept(name: Seq<char>)
    requires
        forall|i: int|
            0 <= i < name.len() ==> {
                let c = #[trigger] name[i];
                is_letter_or_digit(c) || c == '_' || c == '-'
            },
    ensures
        sanitized(name) == name,
{
    assert(sanitized(name) =~= name);
}

/// Sanitizing a joined text joins the sanitized texts.
pub proof fn law_sanitizing_joined_names(a: Seq<char>, b: Seq<char>)
    ensures
        sanitized(a + b) == sanitized(a) + sanitized(b),
{
    assert(sanitized(a + b) =~= sanitized(a) + sanitized(b));
}

/// Slashes at the end of the address of a server do not matter: any number of
/// them leads to the same playlist.
pub proof fn law_trailing_slashes_are_ignored(
    host: Seq<char>,
    n: nat,
    username: Seq<char>,
    password: Seq<char>,
    mac: Seq<char>,
    pin: Option<Seq<char>>,
)
    ensures
        ({
            let slashed = host + Seq::new(n, |i: int| '/');
            &&& playlist_url(SubTypeModel::Xtream { host: slashed, username, password })
                == playlist_url(SubTypeModel::Xtream { host, username, password })
            &&& playlist_url(SubTypeModel::Mag { portal_url: slashed, mac, password: pin })
                == playlist_url(SubTypeModel::Mag { portal_url: host, mac, password: pin })
        }),
    decreases n,
{
    let slashed = host + Seq::new(n, |i: int| '/');
    if n == 0 {
        assert(slashed =~= host);
    } else {
        let fewer = (n - 1) as nat;
        law_trailing_slashes_are_ignored(host, fewer, username, password, mac, pin);
        assert(slashed.drop_last() =~= host + Seq::new(fewer, |i: int| '/'));
        assert(slashed.last() == '/');
    }
}

/// A missing password of a portal counts as an empty one.
pub proof fn law_missing_password_is_empty(portal_url: Seq<char>, mac: Seq<char>)
    ensures
        playlist_url(SubTypeModel::Mag { portal_url, mac, password: None }) == playlist_url(
            SubTypeModel::Mag { portal_url, mac, password: Some(Seq::empty()) },
        ),
{
}

/// The playlist of a plain address is had from that address, as it stands.
pub proof fn law_plain_address_is_kept(url: Seq<char>)
    ensures
        playlist_url(SubTypeModel::M3u { url }) == url,
{
}

/// The playlist of an Xtream server is had from the server's address, with
/// whatever slashes at its end left out, and the credentials stand in the query.
pub proof fn law_xtream_address_names_the_account(
    server: Seq<char>,
    slashes: nat,
    username: Seq<char>,
    password: Seq<char>,
)
    requires
        server.len() > 0 ==> server.last() != '/',
    ensures
        playlist_url(
            SubTypeModel::Xtream {
                host: server + Seq::new(slashes, |i: int| '/'),
                username,
                password,
            },
        ) == server + "/get.php?username="@ + username + "&password="@ + password
            + "&type=m3u_plus"@,
{
    law_trailing_characters_are_taken_off(server, '/', slashes);
}

/// The playlist of a MAG portal is had from the portal's address, with whatever
/// slashes at its end left out, and the device and its password, which may be
/// missing, stand in the query.
pub proof fn law_mag_address_names_the_device(
    portal: Seq<char>,
    slashes: nat,
    mac: Seq<char>,
    pin: Seq<char>,
)
    requires
        portal.len() > 0 ==> portal.last() != '/',
    ensures
        ({
            let portal_url = portal + Seq::new(slashes, |i: int| '/');
            let asked = portal + "/panel_api.php?mac="@ + mac + "&password="@;
            &&& playlist_url(SubTypeModel::Mag { portal_url, mac, password: Some(pin) }) == asked
                + pin
            &&& playlist_url(SubTypeModel::Mag { portal_url, mac, password: None }) == asked
        }),
{
    law_trailing_characters_are_taken_off(portal, '/', slashes);
    let asked = portal + "/panel_api.php?mac="@ + mac + "&password="@;
    assert(asked + Seq::<char>::empty() =~= asked);
}

/// Sanitizing goes character by character: an ASCII letter, digit, underscore or
/// hyphen stays, any other ASCII character becomes an underscore, and of the other
/// characters the letters and digits stay.
pub proof fn law_sanitizing_goes_by_character(name: Seq<char>, i: int)
    requires
        0 <= i < name.len(),
    ensures
        sanitized(name).len() == name.len(),
        ({
            let c = name[i];
            let kept = if c as u32 <= 127 {
                '0' <= c <= '9' || 'A' <= c <= 'Z' || 'a' <= c <= 'z' || c == '_' || c == '-'
            } else {
                unicode_alphanumeric(c)
            };
            sanitized(name)[i] == if kept {
                c
            } else {
                '_'
            }
        }),
{
}

/// The file of a playlist is called after its subscription, sanitized, and nothing
/// else of the subscription matters.
pub proof fn law_playlist_file_is_named_after_the_subscription(sub: SubModel)
    ensures
        playlist_file(sub).len() == sub.name.len() + 4,
        playlist_file(sub).take(sub.name.len() as int) == sanitized(sub.name),
        playlist_file(sub).skip(sub.name.len() as int) == seq!['.', 'm', '3', 'u'],
{
    reveal_strlit(".m3u");
    assert(playlist_file(sub).take(sub.name.len() as int) =~= sanitized(sub.name));
    assert(playlist_file(sub).skip(sub.name.len() as int) =~= seq!['.', 'm', '3', 'u']);
}

/// A subscription is shown with its name, its kind and the calendar day on which
/// it was added.
pub proof fn law_label_shows_name_kind_and_day(sub: SubModel, d: Date)
    requires
        d.valid(),
        d.number() * 86400 <= sub.added.secs < (d.number() + 1) * 86400,
    ensures
        label_of(sub) == sub.name + (match sub.kind {
            SubTypeModel::M3u { .. } => " (M3U) — "@,
            SubTypeModel::Xtream { .. } => " (Xtream) — "@,
            SubTypeModel::Mag { .. } => " (MAG) — "@,
        }) + d.text(),
{
    law_date_of_number(d);
    assert(sub.added.day() == d.number());
    reveal_strlit(" (");
    reveal_strlit(") — ");
    reveal_strlit("M3U");
    reveal_strlit("Xtream");
    reveal_strlit("MAG");
    reveal_strlit(" (M3U) — ");
    reveal_strlit(" (Xtream) — ");
    reveal_strlit(" (MAG) — ");
    assert(" (M3U) — "@ =~= " ("@ + "M3U"@ + ") — "@);
    assert(" (Xtream) — "@ =~= " ("@ + "Xtream"@ + ") — "@);
    assert(" (MAG) — "@ =~= " ("@ + "MAG"@ + ") — "@);
    let between = " ("@ + kind_name(sub.kind) + ") — "@;
    assert(label_of(sub) =~= sub.name + between + d.text());
}

} // verus!
