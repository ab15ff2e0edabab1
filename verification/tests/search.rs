use iptv_manager::search::{Entry, EntryKind, FileSearch, SearchAction};

fn entry(id: usize, kind: EntryKind, name: &str) -> Entry {
    Entry { id, kind, name: Some(name.to_string()) }
}

/// 0: 1 is a file, 2 and 3 are directories; 2: 4 is a directory that cannot be
/// listed; 3: 5 is a directory, 6 is the player; 5: 7 is the player, too.
fn listing(dir: usize) -> Option<Vec<Entry>> {
    match dir {
        0 => Some(vec![
            entry(1, EntryKind::File, "readme.txt"),
            entry(2, EntryKind::Directory, "mpv.exe"),
            entry(3, EntryKind::Directory, "bin"),
        ]),
        2 => Some(vec![entry(4, EntryKind::Directory, "closed")]),
        3 => Some(vec![
            entry(5, EntryKind::Directory, "deep"),
            Entry { id: 8, kind: EntryKind::File, name: None },
            entry(9, EntryKind::Other, "mpv.exe"),
            entry(6, EntryKind::File, "MPV.EXE"),
        ]),
        5 => Some(vec![entry(7, EntryKind::File, "mpv.exe")]),
        _ => None,
    }
}

fn run(depth: usize, name: &str) -> (Vec<usize>, SearchAction) {
    let mut search = FileSearch::new(0, name, depth);
    let mut listed = Vec::new();
    loop {
        match search.action() {
            SearchAction::List(dir) => {
                listed.push(dir);
                search.supply(listing(dir));
            }
            end => return (listed, end),
        }
    }
}

#[test]
fn directories_are_gone_through_in_their_place() {
    assert_eq!(run(6, "mpv.exe"), (vec![0, 2, 4, 3, 5], SearchAction::Found(7)));
}

#[test]
fn the_depth_is_limited() {
    assert_eq!(run(0, "mpv.exe"), (vec![], SearchAction::NotFound));
    assert_eq!(run(1, "mpv.exe"), (vec![0], SearchAction::NotFound));
    assert_eq!(run(2, "mpv.exe"), (vec![0, 2, 3], SearchAction::Found(6)));
    assert_eq!(run(3, "mpv.exe"), (vec![0, 2, 4, 3, 5], SearchAction::Found(7)));
}

#[test]
fn a_missing_file_is_not_found() {
    assert_eq!(run(6, "vlc.exe"), (vec![0, 2, 4, 3, 5], SearchAction::NotFound));
}

#[test]
fn a_root_that_cannot_be_listed_holds_nothing() {
    let mut search = FileSearch::new(1, "x", 3);
    search.supply(None);
    assert_eq!(search.action(), SearchAction::NotFound);
}

#[test]
fn a_search_that_is_over_stays_so() {
    let mut search = FileSearch::new(0, "readme.txt", 1);
    search.supply(listing(0));
    assert_eq!(search.action(), SearchAction::Found(1));
    search.supply(listing(3));
    assert_eq!(search.action(), SearchAction::Found(1));
}

#[test]
fn a_deeper_search_still_finds() {
    for depth in 2..9 {
        assert!(matches!(run(depth, "mpv.exe").1, SearchAction::Found(6 | 7)));
    }
}
