//! The media player: the names of its files and the versions of it.

use vstd::prelude::*;
use vstd::string::*;

use crate::http::{is_success, is_success_status};
use crate::release::text_model;
use crate::search::{
    law_search_finds_the_first_such_file, leads_to_file, search_start, searched, EntryModel,
    SearchModel,
};
use crate::text::{
    after_last, before_first, is_blank, is_core, is_white, law_blank_text_is_trimmed_away,
    law_text_before_the_first, law_text_behind_the_last, law_trimmed_is_the_core,
    law_trimming_leaves_the_core, law_trimming_twice, strip_back, strip_front, text_after,
    text_before, trim, trimmed,
};

verus! {

/// The program of the player, inside its directory.
pub const MPV_EXE: &'static str = "mpv.exe";

/// The file that names the installed version, inside the player's directory.
pub const MPV_VERSION_FILE: &'static str = "version.txt";

/// The archive that the player comes in, inside its directory while it is
/// unpacked.
pub const MPV_ARCHIVE: &'static str = "mpv.7z";

/// How many levels of directories the program of the player is looked for in.
pub const MPV_SEARCH_DEPTH: usize = 6;

/// Where the release service describes the latest release of the player.
pub const LATEST_RELEASE_URL: &'static str =
    "https://api.github.com/repos/shinchiro/mpv-winbuild-cmake/releases/latest";

/// The version that the address of a download names: its last part, without
/// what follows a question mark.
pub open spec fn version_in_url(url: Seq<char>) -> Seq<char> {
    trimmed(after_last(before_first(url, '?'), '/'))
}

/// The version that the address of a download names.
pub fn version_from_url(final_url: &str) -> (r: String)
    ensures
        r@ == version_in_url(final_url@),
{
    let path = text_before(final_url, '?');
    let name = text_after(path.as_str(), '/');
    trim(name.as_str())
}

/// The installed version that the content of the version file names.
pub open spec fn installed_version(content: Option<Seq<char>>) -> Option<Seq<char>> {
    match content {
        Some(s) if trimmed(s).len() > 0 => Some(trimmed(s)),
        _ => None,
    }
}

/// The installed version that the version file names; `content` is nothing where
/// the file could not be read. A blank file names none.
pub fn read_installed_mpv_version(content: Option<&str>) -> (r: Option<String>)
    ensures
        text_model(r) == (match content {
            Some(s) => if trimmed(s@).len() == 0 {
                None
            } else {
                Some(trimmed(s@))
            },
            None => None,
        }),
        text_model(r) == installed_version(
            match content {
                Some(s) => Some(s@),
                None => None,
            },
        ),
{
    match content {
        Some(s) => {
            let t = trim(s);
            if t.as_str().is_empty() {
                None
            } else {
                Some(t)
            }
        },
        None => None,
    }
}

/// The answer to a question for the latest version: its status and the address
/// that it came from in the end.
#[derive(Debug)]
pub struct ProbeReply {
    pub code: u16,
    pub url: String,
}

/// The two questions by which the latest version is found out.
#[derive(PartialEq, Eq, Structural, Clone, Copy, Debug)]
pub enum Probe {
    /// Ask for the headers alone.
    Head,
    /// Ask for the first byte.
    FirstByte,
}

/// What the answer to a question leads to.
#[derive(Debug)]
pub enum ProbeOutcome {
    /// The latest version is this one.
    Version(String),
    /// Ask this next.
    Ask(Probe),
    /// The latest version cannot be found out.
    Unknown,
}

/// What the answer to `probe` leads to; `reply` is nothing where the question
/// could not be asked. The headers decide where they come with success;
/// otherwise the first byte does.
pub fn probe_latest_mpv_version(probe: Probe, reply: Option<ProbeReply>) -> (r: ProbeOutcome)
    ensures
        match reply {
            Some(p) if is_success_status(p.code) => r matches ProbeOutcome::Version(v) && v@
                == version_in_url(p.url@),
            _ => match probe {
                Probe::Head => r == ProbeOutcome::Ask(Probe::FirstByte),
                Probe::FirstByte => r == ProbeOutcome::Unknown,
            },
        },
        r is Version <==> (reply matches Some(p) && 200 <= p.code <= 299),
{
    match reply {
        Some(p) => if is_success(p.code) || (probe == Probe::FirstByte && p.code == 206) {
            return ProbeOutcome::Version(version_from_url(p.url.as_str()));
        },
        None => {},
    }
    match probe {
        Probe::Head => ProbeOutcome::Ask(Probe::FirstByte),
        Probe::FirstByte => ProbeOutcome::Unknown,
    }
}

// --------------------------------------------------------------------- laws

/// What follows a question mark in an address does not change the version.
pub proof fn law_query_is_ignored(url: Seq<char>, query: Seq<char>)
    ensures
        version_in_url(url + seq!['?'] + query) == version_in_url(url),
{
    lemma_before_first_of_sum(url, '?', query);
}

/// The text before the first `c` does not depend on what follows a `c`.
proof fn lemma_before_first_of_sum(s: Seq<char>, c: char, more: Seq<char>)
    ensures
        before_first(s + seq![c] + more, c) == before_first(s, c),
    decreases s.len(),
{
    let whole = s + seq![c] + more;
    if s.len() == 0 {
        assert(whole[0] == c);
    } else if s[0] == c {
        assert(whole[0] == c);
    } else {
        assert(whole[0] == s[0]);
        assert(whole.drop_first() =~= s.drop_first() + seq![c] + more);
        lemma_before_first_of_sum(s.drop_first(), c, more);
    }
}

/// Behind the last `c` there is no `c`.
proof fn lemma_after_last_has_none(s: Seq<char>, c: char)
    ensures
        !after_last(s, c).contains(c),
    decreases s.len(),
{
    if s.len() > 0 && s.last() != c {
        lemma_after_last_has_none(s.drop_last(), c);
        let front = after_last(s.drop_last(), c);
        assert forall|i: int| 0 <= i < front.push(s.last()).len() implies front.push(s.last())[i]
            != c by {
            if i < front.len() {
                assert(front.contains(front[i]));
            }
        }
    }
}

/// The version that an address names holds no slash and no question mark.
pub proof fn law_version_has_no_separator(url: Seq<char>)
    ensures
        !version_in_url(url).contains('/'),
        !version_in_url(url).contains('?'),
{
    let path = before_first(url, '?');
    lemma_before_first_has_none(url, '?');
    lemma_after_last_has_none(path, '/');
    lemma_after_last_is_part(path, '/', '?');
    lemma_trimmed_is_part(after_last(path, '/'), '/');
    lemma_trimmed_is_part(after_last(path, '/'), '?');
}

/// Before the first `c` there is no `c`.
proof fn lemma_before_first_has_none(s: Seq<char>, c: char)
    ensures
        !before_first(s, c).contains(c),
    decreases s.len(),
{
    if s.len() > 0 && s[0] != c {
        lemma_before_first_has_none(s.drop_first(), c);
        let rest = before_first(s.drop_first(), c);
        assert forall|i: int| 0 <= i < rest.len() + 1 implies (seq![s[0]] + rest)[i] != c by {
            if i > 0 {
                assert(rest.contains(rest[i - 1]));
            }
        }
    }
}

/// What stands behind the last `c` holds only what the text holds.
proof fn lemma_after_last_is_part(s: Seq<char>, c: char, d: char)
    requires
        !s.contains(d),
    ensures
        !after_last(s, c).contains(d),
    decreases s.len(),
{
    if s.len() > 0 && s.last() != c {
        assert forall|i: int| 0 <= i < s.drop_last().len() implies s.drop_last()[i] != d by {
            assert(s.contains(s[i]));
        }
        lemma_after_last_is_part(s.drop_last(), c, d);
        let front = after_last(s.drop_last(), c);
        assert(s.contains(s.last()));
        assert forall|i: int| 0 <= i < front.push(s.last()).len() implies front.push(s.last())[i]
            != d by {
            if i < front.len() {
                assert(front.contains(front[i]));
            }
        }
    }
}

/// A trimmed text holds only what the text holds.
proof fn lemma_trimmed_is_part(s: Seq<char>, d: char)
    requires
        !s.contains(d),
    ensures
        !trimmed(s).contains(d),
{
    lemma_strip_front_is_part(s, d);
    lemma_strip_back_is_part(strip_front(s), d);
}

/// A text stripped in front holds only what the text holds.
proof fn lemma_strip_front_is_part(s: Seq<char>, d: char)
    requires
        !s.contains(d),
    ensures
        !strip_front(s).contains(d),
    decreases s.len(),
{
    if s.len() > 0 && is_white(s[0]) {
        assert forall|i: int| 0 <= i < s.drop_first().len() implies s.drop_first()[i] != d by {
            assert(s.contains(s[i + 1]));
        }
        lemma_strip_front_is_part(s.drop_first(), d);
    }
}

/// A text stripped at its end holds only what the text holds.
proof fn lemma_strip_back_is_part(s: Seq<char>, d: char)
    requires
        !s.contains(d),
    ensures
        !strip_back(s).contains(d),
    decreases s.len(),
{
    if s.len() > 0 && is_white(s.last()) {
        assert forall|i: int| 0 <= i < s.drop_last().len() implies s.drop_last()[i] != d by {
            assert(s.contains(s[i]));
        }
        lemma_strip_back_is_part(s.drop_last(), d);
    }
}

/// The last part of a path does not change when directories are put in front.
pub proof fn law_directories_are_ignored(dirs: Seq<char>, name: Seq<char>)
    requires
        !dirs.contains('?'),
    ensures
        version_in_url(dirs + seq!['/'] + name) == version_in_url(seq!['/'] + name),
{
    lemma_before_first_of_front(dirs, seq!['/'] + name, '?');
    assert(dirs + seq!['/'] + name =~= dirs + (seq!['/'] + name));
    let rest = before_first(seq!['/'] + name, '?');
    assert((seq!['/'] + name).drop_first() =~= name);
    assert(rest =~= seq!['/'] + before_first(name, '?'));
    lemma_after_last_of_sum(dirs, '/', before_first(name, '?'));
    lemma_after_last_of_sum(Seq::empty(), '/', before_first(name, '?'));
    assert(dirs + rest =~= dirs + seq!['/'] + before_first(name, '?'));
    assert(rest =~= Seq::<char>::empty() + seq!['/'] + before_first(name, '?'));
}

/// A front without `c` stays in front of what stands before the first `c`.
proof fn lemma_before_first_of_front(front: Seq<char>, s: Seq<char>, c: char)
    requires
        !front.contains(c),
    ensures
        before_first(front + s, c) == front + before_first(s, c),
    decreases front.len(),
{
    if front.len() == 0 {
        assert(front + s =~= s);
        assert(front + before_first(s, c) =~= before_first(s, c));
    } else {
        assert(front.contains(front[0]));
        assert((front + s).drop_first() =~= front.drop_first() + s);
        assert forall|i: int| 0 <= i < front.drop_first().len() implies front.drop_first()[i] != c by {
            assert(front.contains(front[i + 1]));
        }
        lemma_before_first_of_front(front.drop_first(), s, c);
        assert(seq![front[0]] + (front.drop_first() + before_first(s, c)) =~= front + before_first(
            s,
            c,
        ));
    }
}

/// What stands behind the last `c` does not depend on what stands before a `c`.
proof fn lemma_after_last_of_sum(s: Seq<char>, c: char, more: Seq<char>)
    ensures
        after_last(s + seq![c] + more, c) == after_last(seq![c] + more, c),
    decreases more.len(),
{
    let whole = s + seq![c] + more;
    let part = seq![c] + more;
    if more.len() == 0 {
        assert(whole.last() == c && part.last() == c);
    } else {
        assert(whole.last() == more.last() && part.last() == more.last());
        assert(whole.drop_last() =~= s + seq![c] + more.drop_last());
        assert(part.drop_last() =~= seq![c] + more.drop_last());
        lemma_after_last_of_sum(s, c, more.drop_last());
    }
}

/// A version is its own version.
pub proof fn law_version_of_a_version(url: Seq<char>)
    ensures
        version_in_url(version_in_url(url)) == version_in_url(url),
{
    let v = version_in_url(url);
    law_version_has_no_separator(url);
    lemma_before_first_of_front(v, Seq::empty(), '?');
    assert(v + Seq::<char>::empty() =~= v);
    assert(v + before_first(Seq::empty(), '?') =~= v);
    lemma_after_last_without(v, '/');
    law_trimming_twice(after_last(before_first(url, '?'), '/'));
}

/// Where there is no `c`, all of the text stands behind the last.
proof fn lemma_after_last_without(s: Seq<char>, c: char)
    requires
        !s.contains(c),
    ensures
        after_last(s, c) == s,
    decreases s.len(),
{
    if s.len() > 0 {
        assert(s.contains(s.last()));
        assert forall|i: int| 0 <= i < s.drop_last().len() implies s.drop_last()[i] != c by {
            assert(s.contains(s[i]));
        }
        lemma_after_last_without(s.drop_last(), c);
        assert(s.drop_last().push(s.last()) =~= s);
    }
}

/// An address that ends in a slash, its query left aside, names the empty version.
pub proof fn law_directory_has_no_version(url: Seq<char>)
    requires
        before_first(url, '?').len() > 0,
        before_first(url, '?').last() == '/',
    ensures
        version_in_url(url) == Seq::<char>::empty(),
{
}

/// The version is what stands behind the last slash of an address, without the
/// white space around it and without the query; an address without a slash is all
/// version.
pub proof fn law_version_is_the_last_part(
    dirs: Seq<char>,
    front: Seq<char>,
    name: Seq<char>,
    back: Seq<char>,
    query: Seq<char>,
)
    requires
        !dirs.contains('?'),
        is_blank(front),
        is_blank(back),
        !name.contains('/'),
        !name.contains('?'),
        name.len() > 0 ==> !is_white(name[0]) && !is_white(name.last()),
    ensures
        version_in_url(dirs + seq!['/'] + (front + name + back)) == name,
        version_in_url(dirs + seq!['/'] + (front + name + back) + seq!['?'] + query) == name,
        version_in_url(front + name + back) == name,
        version_in_url(front + name + back + seq!['?'] + query) == name,
{
    let last = front + name + back;
    let path = dirs + seq!['/'] + last;
    assert forall|i: int| 0 <= i < last.len() implies last[i] != '/' && last[i] != '?' by {
        if i < front.len() {
            assert(last[i] == front[i]);
        } else if i < front.len() + name.len() {
            assert(name.contains(name[i - front.len()]));
        } else {
            assert(last[i] == back[i - front.len() - name.len()]);
        }
    }
    assert forall|i: int| 0 <= i < path.len() implies path[i] != '?' by {
        if i < dirs.len() {
            assert(dirs.contains(dirs[i]));
        } else if i > dirs.len() {
            assert(path[i] == last[i - dirs.len() - 1]);
        }
    }
    law_text_before_the_first(path, '?', query);
    law_text_before_the_first(last, '?', query);
    law_text_behind_the_last(dirs, '/', last);
    law_trimming_leaves_the_core(front, name, back);
}

/// The program of the player is found wherever it lies, in whatever case its name
/// is written, up to six levels deep, and nothing else is taken for it.
pub proof fn law_player_is_found_six_levels_deep(
    tree: Map<usize, Seq<EntryModel>>,
    root: usize,
    path: Seq<int>,
    id: usize,
)
    ensures
        ({
            let end = searched(tree, search_start(root, MPV_SEARCH_DEPTH as nat), MPV_EXE@);
            &&& leads_to_file(tree, root, path, "mpv.exe"@, id) && path.len() <= 6 ==> (
            end matches SearchModel::Over(found) && found is Some)
            &&& end == SearchModel::Over(Some(id)) ==> exists|p: Seq<int>| #[trigger]
                leads_to_file(tree, root, p, "mpv.exe"@, id) && p.len() <= 6
        }),
{
    law_search_finds_the_first_such_file(tree, root, "mpv.exe"@, 6);
}

/// The installed version is the content of the version file with nothing but the
/// white space around it taken off; a blank file, or none, names no version.
pub proof fn law_installed_version_is_what_the_file_says(content: Seq<char>)
    ensures
        installed_version(None) is None,
        match installed_version(Some(content)) {
            Some(version) => is_core(content, version) && version.len() > 0,
            None => is_blank(content),
        },
{
    law_trimmed_is_the_core(content, trimmed(content));
    law_blank_text_is_trimmed_away(content);
}

} // verus!
