//! Releases of the player as the release service describes them, and which of
//! their files to download.

use vstd::prelude::*;
use vstd::string::*;

use crate::http::{
    is_status, is_success, is_success_status, reason_phrase, status_shown, status_text,
};
use crate::text::{
    contains, decimal, ends_with, has_part, has_prefix, has_suffix, law_part_stands_between,
    law_prefix_stands_in_front, law_suffix_stands_at_the_end, starts_with,
};

verus! {

// ------------------------------------------------------------------ trusted

/// A parsed JSON document.
#[verifier::external_type_specification]
#[verifier::external_body]
pub struct ExJsonValue(serde_json::Value);

/// Why a text is no JSON document.
#[verifier::external_type_specification]
#[verifier::external_body]
pub struct ExJsonError(serde_json::Error);

/// What a JSON document holds. Numbers are not told apart: nothing here reads
/// them.
pub enum JsonTree {
    Null,
    Bool(bool),
    Number,
    Text(Seq<char>),
    Array(Seq<JsonTree>),
    Object(Map<Seq<char>, JsonTree>),
}

/// What the document `v` holds.
pub uninterp spec fn json_tree(v: serde_json::Value) -> JsonTree;

/// What the JSON document written in `text` holds, or nothing where `text` is no
/// JSON document: what `serde_json::from_str` answers.
pub uninterp spec fn json_read(text: Seq<char>) -> Option<JsonTree>;

/// Reads a JSON document: `serde_json::from_str` into a `serde_json::Value`.
///
/// Claimed of it: whether it succeeds, and what the document then holds, is a
/// matter of the text alone.
#[verifier::external_body]
fn parse_json(text: &str) -> (r: Result<serde_json::Value, serde_json::Error>)
    ensures
        match r {
            Ok(v) => json_read(text@) == Some(json_tree(v)),
            Err(_) => json_read(text@) is None,
        },
{
    serde_json::from_str(text)
}

/// The member of a JSON object under a key: indexing a `serde_json::Value` with a
/// text.
///
/// Claimed of it: it never fails, and gives `null` where there is no such member
/// or the value is no object.
#[verifier::external_body]
fn json_member<'a>(v: &'a serde_json::Value, key: &str) -> (r: &'a serde_json::Value)
    ensures
        json_tree(*r) == member_of(json_tree(*v), key@),
{
    &v[key]
}

/// The elements of a JSON array: `serde_json::Value::as_array`.
///
/// Claimed of it: they come for an array and for nothing else, all of them and
/// in order.
#[verifier::external_body]
fn json_items(v: &serde_json::Value) -> (r: Option<&Vec<serde_json::Value>>)
    ensures
        match r {
            Some(items) => json_tree(*v) == JsonTree::Array(items@.map_values(|x: serde_json::Value| json_tree(x))),
            None => !(json_tree(*v) is Array),
        },
{
    v.as_array()
}

/// The text of a JSON string: `serde_json::Value::as_str`.
///
/// Claimed of it: it comes for a string and for nothing else.
#[verifier::external_body]
fn json_text(v: &serde_json::Value) -> (r: Option<&str>)
    ensures
        match r {
            Some(s) => json_tree(*v) == JsonTree::Text(s@),
            None => !(json_tree(*v) is Text),
        },
{
    v.as_str()
}

// ----------------------------------------------------------- specifications

/// The member of `t` under `key`; null where there is none.
pub open spec fn member_of(t: JsonTree, key: Seq<char>) -> JsonTree {
    match t {
        JsonTree::Object(m) if m.contains_key(key) => m[key],
        _ => JsonTree::Null,
    }
}

/// The text of a JSON string; nothing for any other value.
pub open spec fn text_of(t: JsonTree) -> Option<Seq<char>> {
    match t {
        JsonTree::Text(s) => Some(s),
        _ => None,
    }
}

/// One file of a release: its name and where it can be had, as far as the
/// description says so.
#[derive(Debug)]
pub struct Asset {
    pub name: Option<String>,
    pub url: Option<String>,
}

/// An [`Asset`] in the mathematical model.
pub struct AssetModel {
    pub name: Option<Seq<char>>,
    pub url: Option<Seq<char>>,
}

/// The characters of an optional text.
pub open spec fn text_model(t: Option<String>) -> Option<Seq<char>> {
    match t {
        Some(s) => Some(s@),
        None => None,
    }
}

impl View for Asset {
    type V = AssetModel;

    open spec fn view(&self) -> AssetModel {
        AssetModel { name: text_model(self.name), url: text_model(self.url) }
    }
}

/// The files of a release in the model; nothing where the description does not
/// list them.
pub open spec fn assets_model(assets: Option<Vec<Asset>>) -> Option<Seq<AssetModel>> {
    match assets {
        Some(v) => Some(v@.map_values(|a: Asset| a@)),
        None => None,
    }
}

/// The file that one entry of the list describes.
pub open spec fn asset_in(t: JsonTree) -> AssetModel {
    AssetModel {
        name: text_of(member_of(t, "name"@)),
        url: text_of(member_of(t, "browser_download_url"@)),
    }
}

/// The files that the description of a release lists.
pub open spec fn assets_in(t: JsonTree) -> Option<Seq<AssetModel>> {
    match member_of(t, "assets"@) {
        JsonTree::Array(items) => Some(items.map_values(|x: JsonTree| asset_in(x))),
        _ => None,
    }
}

/// The text, or the empty text where there is none.
pub open spec fn or_empty(t: Option<Seq<char>>) -> Seq<char> {
    match t {
        Some(s) => s,
        None => Seq::empty(),
    }
}

/// The archive with the player for 64-bit machines, not one with the codecs.
pub open spec fn is_player_archive(a: AssetModel) -> bool {
    let name = or_empty(a.name);
    &&& has_prefix(name, "mpv-"@)
    &&& !has_part(name, "ffmpeg"@)
    &&& has_part(name, "x86_64"@)
    &&& has_suffix(name, ".7z"@)
}

/// The archive that the player is installed from.
pub open spec fn is_install_archive(a: AssetModel) -> bool {
    match a.name {
        Some(name) => has_part(name, "mpv-x86_64"@) && has_suffix(name, ".7z"@),
        None => false,
    }
}

/// The first player archive of the list.
pub open spec fn first_player_archive(list: Seq<AssetModel>) -> Option<AssetModel>
    decreases list.len(),
{
    if list.len() == 0 {
        None
    } else if is_player_archive(list[0]) {
        Some(list[0])
    } else {
        first_player_archive(list.drop_first())
    }
}

/// The first install archive of the list.
pub open spec fn first_install_archive(list: Seq<AssetModel>) -> Option<AssetModel>
    decreases list.len(),
{
    if list.len() == 0 {
        None
    } else if is_install_archive(list[0]) {
        Some(list[0])
    } else {
        first_install_archive(list.drop_first())
    }
}

/// Why no address of the latest player can be given.
#[derive(PartialEq, Eq, Structural, Clone, Copy, Debug)]
pub enum ReleaseError {
    /// The release service could not be asked.
    RequestFailed,
    /// The release service answered with this status.
    Status(u16),
    /// The body of the answer could not be read.
    UnreadableBody,
    /// The body of the answer is no JSON document.
    InvalidJson,
    /// The description lists no files.
    NoAssets,
    /// None of the files is the archive looked for.
    NoArchive,
}

/// A result in the model.
pub open spec fn result_model<E>(r: Result<String, E>) -> Result<Seq<char>, E> {
    match r {
        Ok(s) => Ok(s@),
        Err(e) => Err(e),
    }
}

/// The address that the latest release gives for the player: that of the first
/// player archive, which is empty where the description leaves it out.
pub open spec fn latest_url(assets: Option<Seq<AssetModel>>) -> Result<Seq<char>, ReleaseError> {
    match assets {
        None => Err(ReleaseError::NoAssets),
        Some(list) => match first_player_archive(list) {
            Some(a) => Ok(or_empty(a.url)),
            None => Err(ReleaseError::NoArchive),
        },
    }
}

/// The address to install the player from: that of the first install archive,
/// if the description gives it one.
pub open spec fn install_url(assets: Option<Seq<AssetModel>>) -> Result<Seq<char>, ReleaseError> {
    match assets {
        None => Err(ReleaseError::NoAssets),
        Some(list) => match first_install_archive(list) {
            Some(AssetModel { name: _, url: Some(url) }) => Ok(url),
            _ => Err(ReleaseError::NoArchive),
        },
    }
}

/// The files that a description in JSON lists; nothing where `text` is no JSON
/// document.
pub open spec fn assets_in_text(text: Seq<char>) -> Option<Option<Seq<AssetModel>>> {
    match json_read(text) {
        None => None,
        Some(t) => Some(assets_in(t)),
    }
}

/// The files of a release that was read, in the model; nothing where its
/// description is no JSON document.
pub open spec fn release_model(release: Result<Option<Vec<Asset>>, ReleaseError>) -> Option<
    Option<Seq<AssetModel>>,
> {
    match release {
        Ok(assets) => Some(assets_model(assets)),
        Err(_) => None,
    }
}

/// What the body of the release service's answer leads to.
pub open spec fn url_in_text(text: Seq<char>) -> Result<Seq<char>, ReleaseError> {
    match assets_in_text(text) {
        None => Err(ReleaseError::InvalidJson),
        Some(assets) => latest_url(assets),
    }
}

/// How each error is reported.
pub open spec fn release_error_text(e: ReleaseError) -> Seq<char> {
    match e {
        ReleaseError::RequestFailed => "Nu pot interoga GitHub API"@,
        ReleaseError::Status(code) => "HTTP "@ + status_shown(code) + " la GitHub API"@,
        ReleaseError::UnreadableBody => "Nu pot citi corpul răspunsului GitHub"@,
        ReleaseError::InvalidJson => "JSON invalid GitHub"@,
        ReleaseError::NoAssets => "Nu există assets în release"@,
        ReleaseError::NoArchive => "Nu am găsit asset mpv x86_64 .7z"@,
    }
}

// ---------------------------------------------------------------- functions

/// A copy of an optional text.
fn copy_text(t: Option<&str>) -> (r: Option<String>)
    ensures
        text_model(r) == (match t {
            Some(s) => Some(s@),
            None => None,
        }),
{
    match t {
        Some(s) => Some(s.to_string()),
        None => None,
    }
}

/// The files that the description of a release lists.
fn read_assets(release: &serde_json::Value) -> (r: Option<Vec<Asset>>)
    ensures
        assets_model(r) == assets_in(json_tree(*release)),
{
    let listed = json_member(release, "assets");
    match json_items(listed) {
        None => None,
        Some(items) => {
            let ghost trees = items@.map_values(|x: serde_json::Value| json_tree(x));
            let mut out: Vec<Asset> = Vec::new();
            let mut i: usize = 0;
            while i < items.len()
                invariant
                    i <= items.len(),
                    out.len() == i,
                    trees == items@.map_values(|x: serde_json::Value| json_tree(x)),
                    forall|k: int| 0 <= k < i ==> (#[trigger] out@[k])@ == asset_in(trees[k]),
                decreases items.len() - i,
            {
                let item = &items[i];
                let name = copy_text(json_text(json_member(item, "name")));
                let url = copy_text(json_text(json_member(item, "browser_download_url")));
                out.push(Asset { name, url });
                assert(out@[i as int]@ == asset_in(trees[i as int]));
                i = i + 1;
            }
            assert(out@.map_values(|a: Asset| a@) =~= trees.map_values(|x: JsonTree| asset_in(x)));
            Some(out)
        },
    }
}

/// The files that the description of a release, written in JSON, lists.
pub fn release_assets(text: &str) -> (r: Result<Option<Vec<Asset>>, ReleaseError>)
    ensures
        release_model(r) == assets_in_text(text@),
        r matches Err(e) ==> e == ReleaseError::InvalidJson,
{
    match parse_json(text) {
        Err(_) => Err(ReleaseError::InvalidJson),
        Ok(v) => Ok(read_assets(&v)),
    }
}

/// Whether a file is the player archive that is fetched.
fn fits_player(a: &Asset) -> (r: bool)
    ensures
        r == is_player_archive(a@),
{
    match &a.name {
        Some(name) => starts_with(name.as_str(), "mpv-") && !contains(name.as_str(), "ffmpeg")
            && contains(name.as_str(), "x86_64") && ends_with(name.as_str(), ".7z"),
        None => {
            proof {
                reveal_strlit("mpv-");
            }
            false
        },
    }
}

/// Whether a file is the archive that the player is installed from.
fn fits_install(a: &Asset) -> (r: bool)
    ensures
        r == is_install_archive(a@),
{
    match &a.name {
        Some(name) => contains(name.as_str(), "mpv-x86_64") && ends_with(name.as_str(), ".7z"),
        None => false,
    }
}

/// The address that the listed files give for the latest player.
pub fn latest_asset_url(assets: &Option<Vec<Asset>>) -> (r: Result<String, ReleaseError>)
    ensures
        result_model(r) == latest_url(assets_model(*assets)),
{
    match assets {
        None => Err(ReleaseError::NoAssets),
        Some(list) => {
            let ghost models = list@.map_values(|a: Asset| a@);
            let mut i: usize = 0;
            assert(models.skip(0) =~= models);
            while i < list.len()
                invariant
                    i <= list.len(),
                    models == list@.map_values(|a: Asset| a@),
                    assets_model(*assets) == Some(models),
                    first_player_archive(models) == first_player_archive(models.skip(i as int)),
                decreases list.len() - i,
            {
                assert(models.skip(i as int)[0] == list@[i as int]@);
                if fits_player(&list[i]) {
                    return match &list[i].url {
                        Some(url) => Ok(url.clone()),
                        None => Ok(String::new()),
                    };
                }
                assert(models.skip(i as int).drop_first() =~= models.skip(i + 1));
                i = i + 1;
            }
            Err(ReleaseError::NoArchive)
        },
    }
}

/// The address to install the player from.
pub fn install_asset_url(assets: &Option<Vec<Asset>>) -> (r: Result<String, ReleaseError>)
    ensures
        result_model(r) == install_url(assets_model(*assets)),
        assets is None ==> r matches Err(ReleaseError::NoAssets),
        assets matches Some(list) ==> match r {
            Ok(url) => exists|i: int|
                0 <= i < list.len() && ((#[trigger] list@[i]).name matches Some(name) && has_part(
                    name@,
                    "mpv-x86_64"@,
                ) && has_suffix(name@, ".7z"@)) && (list@[i].url matches Some(u) && u@ == url@) && (
                forall|j: int|
                    0 <= j < i ==> ((#[trigger] list@[j]).name matches Some(name) ==> !has_part(
                        name@,
                        "mpv-x86_64"@,
                    ) || !has_suffix(name@, ".7z"@))),
            Err(e) => e == ReleaseError::NoArchive && forall|i: int|
                0 <= i < list.len() && ((#[trigger] list@[i]).name matches Some(name) && has_part(
                    name@,
                    "mpv-x86_64"@,
                ) && has_suffix(name@, ".7z"@)) && (forall|j: int|
                    0 <= j < i ==> ((#[trigger] list@[j]).name matches Some(name) ==> !has_part(
                        name@,
                        "mpv-x86_64"@,
                    ) || !has_suffix(name@, ".7z"@))) ==> list@[i].url is None,
        },
{
    match assets {
        None => Err(ReleaseError::NoAssets),
        Some(list) => {
            let ghost models = list@.map_values(|a: Asset| a@);
            let mut i: usize = 0;
            assert(models.skip(0) =~= models);
            while i < list.len()
                invariant
                    i <= list.len(),
                    models == list@.map_values(|a: Asset| a@),
                    assets_model(*assets) == Some(models),
                    *assets == Some(*list),
                    first_install_archive(models) == first_install_archive(models.skip(i as int)),
                    forall|j: int|
                        0 <= j < i ==> ((#[trigger] list@[j]).name matches Some(name) ==> !has_part(
                            name@,
                            "mpv-x86_64"@,
                        ) || !has_suffix(name@, ".7z"@)),
                decreases list.len() - i,
            {
                assert(models.skip(i as int)[0] == list@[i as int]@);
                if fits_install(&list[i]) {
                    assert(list@[i as int].name matches Some(name) && has_part(
                        name@,
                        "mpv-x86_64"@,
                    ) && has_suffix(name@, ".7z"@));
                    return match &list[i].url {
                        Some(url) => Ok(url.clone()),
                        None => Err(ReleaseError::NoArchive),
                    };
                }
                assert(models.skip(i as int).drop_first() =~= models.skip(i + 1));
                i = i + 1;
            }
            Err(ReleaseError::NoArchive)
        },
    }
}

/// Whether the release service's answer is to be read: `reply` is its status, or
/// nothing where it could not be asked.
pub fn check_release_reply(reply: Option<u16>) -> (r: Result<(), ReleaseError>)
    ensures
        r is Ok <==> (reply matches Some(code) && 200 <= code <= 299),
        r == (match reply {
            None => Err(ReleaseError::RequestFailed),
            Some(code) => if is_success_status(code) {
                Ok(())
            } else {
                Err(ReleaseError::Status(code))
            },
        }),
{
    match reply {
        None => Err(ReleaseError::RequestFailed),
        Some(code) => if is_success(code) {
            Ok(())
        } else {
            Err(ReleaseError::Status(code))
        },
    }
}

/// The address of the latest player, out of the body of the release service's
/// answer; `body` is nothing where it could not be read.
pub fn fetch_latest_mpv_asset_url(body: Option<&str>) -> (r: Result<String, ReleaseError>)
    ensures
        result_model(r) == (match body {
            None => Err(ReleaseError::UnreadableBody),
            Some(text) => url_in_text(text@),
        }),
{
    match body {
        None => Err(ReleaseError::UnreadableBody),
        Some(text) => match release_assets(text) {
            Err(e) => Err(e),
            Ok(assets) => latest_asset_url(&assets),
        },
    }
}

impl ReleaseError {
    /// The error as it is reported.
    pub fn message(&self) -> (r: String)
        requires
            *self matches ReleaseError::Status(code) ==> is_status(code),
        ensures
            r@ == release_error_text(*self),
    {
        match self {
            ReleaseError::RequestFailed => "Nu pot interoga GitHub API".to_string(),
            ReleaseError::Status(code) => "HTTP ".to_string().concat(
                status_text(*code).as_str(),
            ).concat(" la GitHub API"),
            ReleaseError::UnreadableBody => "Nu pot citi corpul răspunsului GitHub".to_string(),
            ReleaseError::InvalidJson => "JSON invalid GitHub".to_string(),
            ReleaseError::NoAssets => "Nu există assets în release".to_string(),
            ReleaseError::NoArchive => "Nu am găsit asset mpv x86_64 .7z".to_string(),
        }
    }
}

// --------------------------------------------------------------------- laws

/// Index `i` holds the first player archive of the list.
pub open spec fn player_archive_at(list: Seq<AssetModel>, i: int) -> bool {
    &&& 0 <= i < list.len()
    &&& is_player_archive(list[i])
    &&& forall|j: int| 0 <= j < i ==> !is_player_archive(#[trigger] list[j])
}

/// Index `i` holds the first install archive of the list.
pub open spec fn install_archive_at(list: Seq<AssetModel>, i: int) -> bool {
    &&& 0 <= i < list.len()
    &&& is_install_archive(list[i])
    &&& forall|j: int| 0 <= j < i ==> !is_install_archive(#[trigger] list[j])
}

/// The address of the latest player is that of the first player archive, and
/// there is none exactly if no file is one.
pub proof fn law_latest_is_first_player_archive(list: Seq<AssetModel>)
    ensures
        match latest_url(Some(list)) {
            Ok(url) => exists|i: int|
                #[trigger] player_archive_at(list, i) && or_empty(list[i].url) == url,
            Err(e) => e == ReleaseError::NoArchive && forall|i: int|
                0 <= i < list.len() ==> !is_player_archive(#[trigger] list[i]),
        },
    decreases list.len(),
{
    if list.len() > 0 {
        if is_player_archive(list[0]) {
            assert(player_archive_at(list, 0));
        } else {
            let rest = list.drop_first();
            law_latest_is_first_player_archive(rest);
            match latest_url(Some(rest)) {
                Ok(url) => {
                    let i = choose|i: int|
                        #[trigger] player_archive_at(rest, i) && or_empty(rest[i].url) == url;
                    assert forall|j: int| 0 <= j < i + 1 implies !is_player_archive(
                        #[trigger] list[j],
                    ) by {
                        if j > 0 {
                            assert(!is_player_archive(rest[j - 1]));
                        }
                    }
                    assert(player_archive_at(list, i + 1));
                },
                Err(_) => {
                    assert forall|j: int| 0 <= j < list.len() implies !is_player_archive(
                        #[trigger] list[j],
                    ) by {
                        if j > 0 {
                            assert(!is_player_archive(rest[j - 1]));
                        }
                    }
                },
            }
        }
    }
}

/// The player is installed from the first install archive, and cannot be exactly
/// if no file is one or the first that is one has no address.
pub proof fn law_install_is_first_install_archive(list: Seq<AssetModel>)
    ensures
        match install_url(Some(list)) {
            Ok(url) => exists|i: int|
                #[trigger] install_archive_at(list, i) && list[i].url == Some(url),
            Err(e) => e == ReleaseError::NoArchive && ((forall|i: int|
                0 <= i < list.len() ==> !is_install_archive(#[trigger] list[i])) || exists|i: int|
                #[trigger] install_archive_at(list, i) && list[i].url is None),
        },
    decreases list.len(),
{
    if list.len() > 0 {
        if is_install_archive(list[0]) {
            assert(install_archive_at(list, 0));
        } else {
            let rest = list.drop_first();
            law_install_is_first_install_archive(rest);
            assert forall|i: int| #[trigger] install_archive_at(rest, i) implies install_archive_at(
                list,
                i + 1,
            ) by {
                assert forall|j: int| 0 <= j < i + 1 implies !is_install_archive(
                    #[trigger] list[j],
                ) by {
                    if j > 0 {
                        assert(!is_install_archive(rest[j - 1]));
                    }
                }
            }
            match install_url(Some(rest)) {
                Ok(url) => {
                    let i = choose|i: int|
                        #[trigger] install_archive_at(rest, i) && rest[i].url == Some(url);
                    assert(install_archive_at(list, i + 1));
                },
                Err(_) => {
                    if exists|i: int| #[trigger] install_archive_at(rest, i) && rest[i].url is None {
                        let i = choose|i: int|
                            #[trigger] install_archive_at(rest, i) && rest[i].url is None;
                        assert(install_archive_at(list, i + 1));
                    } else {
                        assert forall|j: int| 0 <= j < list.len() implies !is_install_archive(
                            #[trigger] list[j],
                        ) by {
                            if j > 0 {
                                assert(!is_install_archive(rest[j - 1]));
                            }
                        }
                    }
                },
            }
        }
    }
}

/// The player is installed from the first file whose name holds `mpv-x86_64` and
/// ends in `.7z`: from its address, if it has one, and from no other. Where no name
/// is such, or no files are listed, the player cannot be installed.
pub proof fn law_player_is_installed_from_its_archive(list: Seq<AssetModel>, i: int)
    requires
        0 <= i <= list.len(),
        forall|j: int|
            0 <= j < i ==> ((#[trigger] list[j]).name matches Some(name) ==> !has_part(
                name,
                "mpv-x86_64"@,
            ) || !has_suffix(name, ".7z"@)),
        i < list.len() ==> (list[i].name matches Some(name) && has_part(name, "mpv-x86_64"@)
            && has_suffix(name, ".7z"@)),
    ensures
        i == list.len() ==> install_url(Some(list)) == Err::<Seq<char>, ReleaseError>(
            ReleaseError::NoArchive,
        ),
        i < list.len() && list[i].url is None ==> install_url(Some(list)) == Err::<
            Seq<char>,
            ReleaseError,
        >(ReleaseError::NoArchive),
        i < list.len() && list[i].url is Some ==> install_url(Some(list)) == Ok::<
            Seq<char>,
            ReleaseError,
        >(list[i].url->0),
        install_url(None) == Err::<Seq<char>, ReleaseError>(ReleaseError::NoAssets),
    decreases list.len(),
{
    if i > 0 {
        let rest = list.drop_first();
        assert(!is_install_archive(list[0]));
        assert forall|j: int| 0 <= j < i - 1 implies ((#[trigger] rest[j]).name matches Some(name)
            ==> !has_part(name, "mpv-x86_64"@) || !has_suffix(name, ".7z"@)) by {
            assert(rest[j] == list[j + 1]);
        }
        law_player_is_installed_from_its_archive(rest, i - 1);
    }
}

/// What the archive of the player is called: from `mpv-` on, with `x86_64` and
/// without `ffmpeg` somewhere in it, and `.7z` at the end.
pub open spec fn is_player_name(name: Seq<char>) -> bool {
    &&& exists|rest: Seq<char>| name == #[trigger] ("mpv-"@ + rest)
    &&& exists|a: Seq<char>, b: Seq<char>| name == #[trigger] (a + "x86_64"@ + b)
    &&& forall|a: Seq<char>, b: Seq<char>| name != #[trigger] (a + "ffmpeg"@ + b)
    &&& exists|front: Seq<char>| name == #[trigger] (front + ".7z"@)
}

/// A file is the player archive exactly if it has such a name.
proof fn lemma_player_name(a: AssetModel)
    ensures
        is_player_archive(a) <==> (a.name matches Some(name) && is_player_name(name)),
{
    let name = or_empty(a.name);
    law_prefix_stands_in_front(name, "mpv-"@);
    law_part_stands_between(name, "x86_64"@);
    law_part_stands_between(name, "ffmpeg"@);
    law_suffix_stands_at_the_end(name, ".7z"@);
    if a.name is None {
        reveal_strlit("mpv-");
    }
}

/// The latest player is had from the address of the first file that is called like
/// its archive, which counts as empty where it is missing. Where none is, or no
/// files are listed, there is none.
pub proof fn law_latest_player_is_had_from_its_archive(list: Seq<AssetModel>, i: int)
    requires
        0 <= i <= list.len(),
        forall|j: int|
            0 <= j < i ==> ((#[trigger] list[j]).name matches Some(name) ==> !is_player_name(name)),
        i < list.len() ==> (list[i].name matches Some(name) && is_player_name(name)),
    ensures
        i == list.len() ==> latest_url(Some(list)) == Err::<Seq<char>, ReleaseError>(
            ReleaseError::NoArchive,
        ),
        i < list.len() ==> latest_url(Some(list)) == Ok::<Seq<char>, ReleaseError>(
            match list[i].url {
                Some(url) => url,
                None => Seq::empty(),
            },
        ),
        latest_url(None) == Err::<Seq<char>, ReleaseError>(ReleaseError::NoAssets),
    decreases list.len(),
{
    if i > 0 {
        let rest = list.drop_first();
        lemma_player_name(list[0]);
        assert forall|j: int| 0 <= j < i - 1 implies ((#[trigger] rest[j]).name matches Some(name)
            ==> !is_player_name(name)) by {
            assert(rest[j] == list[j + 1]);
        }
        law_latest_player_is_had_from_its_archive(rest, i - 1);
    } else if i < list.len() {
        lemma_player_name(list[0]);
    }
}

/// A name of an archive as the two choices see it: each text is looked for where
/// the name is that text with something, or nothing, around it.
pub proof fn law_install_archive_by_its_name(a: AssetModel)
    ensures
        is_install_archive(a) <==> (a.name matches Some(name) && (exists|x: Seq<char>, y: Seq<char>|
            name == #[trigger] (x + "mpv-x86_64"@ + y)) && (exists|x: Seq<char>|
            name == #[trigger] (x + ".7z"@))),
{
    if let Some(name) = a.name {
        law_part_stands_between(name, "mpv-x86_64"@);
        law_suffix_stands_at_the_end(name, ".7z"@);
    }
}

/// The files of a release are the elements of the array `assets` of the document,
/// all of them and in order; the name and the address of each are the texts `name`
/// and `browser_download_url` of the element, where it is an object that has them.
pub proof fn law_files_are_read_from_the_document(
    doc: Map<Seq<char>, JsonTree>,
    items: Seq<JsonTree>,
    i: int,
)
    requires
        doc.contains_key("assets"@),
        doc["assets"@] == JsonTree::Array(items),
        0 <= i < items.len(),
    ensures
        assets_in(JsonTree::Object(doc)) matches Some(list) && list.len() == items.len() && (
        match items[i] {
            JsonTree::Object(file) => list[i] == (AssetModel {
                name: if file.contains_key("name"@) && file["name"@] is Text {
                    Some(file["name"@]->Text_0)
                } else {
                    None
                },
                url: if file.contains_key("browser_download_url"@)
                    && file["browser_download_url"@] is Text {
                    Some(file["browser_download_url"@]->Text_0)
                } else {
                    None
                },
            }),
            _ => list[i] == (AssetModel { name: None, url: None }),
        }),
{
}

/// A document lists files exactly if it is an object whose `assets` are an array.
pub proof fn law_document_without_assets_lists_no_files(doc: JsonTree)
    ensures
        assets_in(doc) is Some <==> (doc matches JsonTree::Object(m) && m.contains_key("assets"@)
            && m["assets"@] is Array),
        assets_in(doc) matches Some(list) ==> list.len() == (doc->Object_0)["assets"@]->Array_0.len(),
{
}

/// What the body of the release service's answer leads to: an error of its own
/// where it is no JSON document, and where the document lists no files; otherwise
/// what the listed files lead to.
pub proof fn law_body_leads_to_its_files(text: Seq<char>)
    ensures
        json_read(text) is None ==> url_in_text(text) == Err::<Seq<char>, ReleaseError>(
            ReleaseError::InvalidJson,
        ),
        json_read(text) matches Some(doc) ==> match assets_in(doc) {
            None => url_in_text(text) == Err::<Seq<char>, ReleaseError>(ReleaseError::NoAssets),
            Some(list) => url_in_text(text) == latest_url(Some(list)),
        },
{
}

/// A status that the release service should not have answered with is reported
/// with its code.
pub proof fn law_status_is_reported_with_its_code(code: u16)
    requires
        is_status(code),
    ensures
        release_error_text(ReleaseError::Status(code)) == "HTTP "@ + decimal(code as nat) + " "@
            + reason_phrase(code) + " la GitHub API"@,
{
    reveal_strlit(" ");
    assert(" "@ =~= seq![' ']);
    assert(release_error_text(ReleaseError::Status(code)) =~= "HTTP "@ + decimal(code as nat) + " "@
        + reason_phrase(code) + " la GitHub API"@);
}

} // verus!
