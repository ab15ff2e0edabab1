//! The search for a file in a directory and the directories inside it.
//!
//! The search itself touches no disk. It says which directory it wants to see
//! listed, takes the listing and goes on, until it has found the file or has
//! nowhere left to look.

use vstd::prelude::*;
use vstd::string::*;

use crate::release::text_model;
use crate::text::{
    eq_ignore_ascii_case, law_case_is_ignored_letter_by_letter, same_ignoring_ascii_case,
    same_letter,
};

verus! {

/// What an entry of a directory is.
#[derive(PartialEq, Eq, Structural, Clone, Copy, Debug)]
pub enum EntryKind {
    File,
    Directory,
    Other,
}

/// An entry of a directory: a number by which the caller knows it again, what it
/// is, and its name where that is text.
pub struct Entry {
    pub id: usize,
    pub kind: EntryKind,
    pub name: Option<String>,
}

/// An [`Entry`] in the mathematical model.
pub struct EntryModel {
    pub id: usize,
    pub kind: EntryKind,
    pub name: Option<Seq<char>>,
}

impl View for Entry {
    type V = EntryModel;

    open spec fn view(&self) -> EntryModel {
        EntryModel { id: self.id, kind: self.kind, name: text_model(self.name) }
    }
}

/// The entries of a listing in the model.
pub open spec fn listing_model(entries: Seq<Entry>) -> Seq<EntryModel> {
    entries.map_values(|e: Entry| e@)
}

/// A directory that is being gone through: the entries still to be looked at,
/// and how many levels of directories may be opened from here, this one
/// included.
struct Frame {
    entries: Vec<Entry>,
    next: usize,
    depth: usize,
}

/// A directory that is being gone through, in the model.
pub struct FrameModel {
    pub entries: Seq<EntryModel>,
    pub depth: nat,
}

impl View for Frame {
    type V = FrameModel;

    closed spec fn view(&self) -> FrameModel {
        FrameModel {
            entries: listing_model(self.entries@).skip(self.next as int),
            depth: self.depth as nat,
        }
    }
}

/// What a search wants next.
#[derive(PartialEq, Eq, Structural, Clone, Copy, Debug)]
pub enum SearchAction {
    /// The listing of this directory.
    List(usize),
    /// Nothing: the file is this one.
    Found(usize),
    /// Nothing: there is no such file.
    NotFound,
}

/// A search in the model.
pub enum SearchModel {
    /// Waiting for the listing of `dir`, from which `depth` levels may be opened,
    /// with the directories of `stack` half gone through, the innermost last.
    Waiting { dir: usize, depth: nat, stack: Seq<FrameModel> },
    /// Over, with the file that was found.
    Over(Option<usize>),
}

/// A search for a file.
pub struct FileSearch {
    name: String,
    waiting: Option<(usize, usize)>,
    found: Option<usize>,
    stack: Vec<Frame>,
}

// ----------------------------------------------------------- specifications

/// The entry is a file with the name looked for, in whatever case.
pub open spec fn is_wanted(e: EntryModel, name: Seq<char>) -> bool {
    &&& e.kind == EntryKind::File
    &&& e.name matches Some(n) && same_ignoring_ascii_case(n, name)
}

/// How far a stack is from being gone through.
pub open spec fn stack_size(stack: Seq<FrameModel>) -> nat
    decreases stack.len(),
{
    if stack.len() == 0 {
        0
    } else {
        stack_size(stack.drop_last()) + stack.last().entries.len() + 1
    }
}

/// The stack with the first entry of its innermost directory taken off.
pub open spec fn without_entry(stack: Seq<FrameModel>) -> Seq<FrameModel> {
    stack.drop_last().push(
        FrameModel { entries: stack.last().entries.drop_first(), depth: stack.last().depth },
    )
}

/// Goes through the half gone through directories up to the next one that must
/// be listed, or to the end of the search.
pub open spec fn gone_on(name: Seq<char>, stack: Seq<FrameModel>) -> SearchModel
    decreases stack_size(stack),
    via gone_on_ends
{
    if stack.len() == 0 {
        SearchModel::Over(None)
    } else if stack.last().entries.len() == 0 {
        gone_on(name, stack.drop_last())
    } else {
        let e = stack.last().entries[0];
        if is_wanted(e, name) {
            SearchModel::Over(Some(e.id))
        } else if e.kind == EntryKind::Directory && stack.last().depth > 1 {
            SearchModel::Waiting {
                dir: e.id,
                depth: (stack.last().depth - 1) as nat,
                stack: without_entry(stack),
            }
        } else {
            gone_on(name, without_entry(stack))
        }
    }
}

#[via_fn]
proof fn gone_on_ends(name: Seq<char>, stack: Seq<FrameModel>) {
    if stack.len() > 0 && stack.last().entries.len() > 0 {
        lemma_size_without_entry(stack);
    }
}

/// Taking an entry off brings the stack closer to its end.
proof fn lemma_size_without_entry(stack: Seq<FrameModel>)
    requires
        stack.len() > 0,
        stack.last().entries.len() > 0,
    ensures
        stack_size(without_entry(stack)) < stack_size(stack),
{
    assert(without_entry(stack).drop_last() =~= stack.drop_last());
}

/// A search at its start.
pub open spec fn search_start(root: usize, max_depth: nat) -> SearchModel {
    if max_depth == 0 {
        SearchModel::Over(None)
    } else {
        SearchModel::Waiting { dir: root, depth: max_depth, stack: Seq::empty() }
    }
}

/// The search after the listing that it waited for; nothing stands for a
/// directory that cannot be listed.
pub open spec fn search_next(
    name: Seq<char>,
    s: SearchModel,
    listing: Option<Seq<EntryModel>>,
) -> SearchModel {
    match s {
        SearchModel::Waiting { dir, depth, stack } => match listing {
            Some(entries) => gone_on(name, stack.push(FrameModel { entries, depth })),
            None => gone_on(name, stack),
        },
        SearchModel::Over(_) => s,
    }
}

impl FileSearch {
    /// The name looked for.
    pub closed spec fn wanted(&self) -> Seq<char> {
        self.name@
    }

    /// The half gone through directories.
    closed spec fn frames(&self) -> Seq<FrameModel> {
        self.stack@.map_values(|f: Frame| f@)
    }

    /// No directory has been gone through past its end, and every one, the one
    /// waited for included, may be opened.
    pub closed spec fn well_formed(&self) -> bool {
        &&& forall|i: int|
            0 <= i < self.stack.len() ==> {
                let f = #[trigger] self.stack@[i];
                f.next <= f.entries.len() && 0 < f.depth
            }
        &&& self.waiting matches Some(w) ==> 0 < w.1
    }
}

impl View for FileSearch {
    type V = SearchModel;

    closed spec fn view(&self) -> SearchModel {
        match self.waiting {
            Some((dir, depth)) => SearchModel::Waiting {
                dir,
                depth: depth as nat,
                stack: self.frames(),
            },
            None => SearchModel::Over(self.found),
        }
    }
}

// ---------------------------------------------------------------- functions

impl FileSearch {
    /// A search for `filename`, in whatever case, in the directory `root` and the
    /// directories inside it, `max_depth` levels deep.
    pub fn new(root: usize, filename: &str, max_depth: usize) -> (r: FileSearch)
        ensures
            r.well_formed(),
            r.wanted() == filename@,
            r@ == search_start(root, max_depth as nat),
    {
        let waiting: Option<(usize, usize)> = if max_depth == 0 {
            None
        } else {
            Some((root, max_depth))
        };
        let r = FileSearch {
            name: filename.to_string(),
            waiting,
            found: None,
            stack: Vec::new(),
        };
        assert(r.frames() =~= Seq::<FrameModel>::empty());
        r
    }

    /// What the search wants next.
    pub fn action(&self) -> (r: SearchAction)
        ensures
            r == (match self@ {
                SearchModel::Waiting { dir, depth, stack } => SearchAction::List(dir),
                SearchModel::Over(Some(id)) => SearchAction::Found(id),
                SearchModel::Over(None) => SearchAction::NotFound,
            }),
    {
        match self.waiting {
            Some((dir, _)) => SearchAction::List(dir),
            None => match self.found {
                Some(id) => SearchAction::Found(id),
                None => SearchAction::NotFound,
            },
        }
    }

    /// Takes the listing of the directory that the search wanted to see, or
    /// nothing where it cannot be listed, and goes on. A search that is over
    /// stays as it is.
    pub fn supply(&mut self, listing: Option<Vec<Entry>>)
        requires
            old(self).well_formed(),
        ensures
            final(self).well_formed(),
            final(self).wanted() == old(self).wanted(),
            final(self)@ == search_next(
                old(self).wanted(),
                old(self)@,
                match listing {
                    Some(entries) => Some(listing_model(entries@)),
                    None => None,
                },
            ),
    {
        match self.waiting {
            None => {},
            Some((_, depth)) => {
                match listing {
                    Some(entries) => {
                        let ghost before = self.frames();
                        let frame = Frame { entries, next: 0, depth };
                        assert(listing_model(frame.entries@).skip(0) =~= listing_model(frame.entries@));
                        self.stack.push(frame);
                        assert(self.frames() =~= before.push(frame@));
                    },
                    None => {},
                }
                self.waiting = None;
                self.go_on();
            },
        }
    }

    /// Goes through the half gone through directories.
    fn go_on(&mut self)
        requires
            old(self).well_formed(),
            old(self).waiting is None,
        ensures
            final(self).well_formed(),
            final(self).wanted() == old(self).wanted(),
            final(self)@ == gone_on(old(self).wanted(), old(self).frames()),
    {
        let ghost goal = gone_on(self.wanted(), self.frames());
        let ghost name = self.wanted();
        self.found = None;
        while self.stack.len() > 0
            invariant_except_break
                self.waiting is None,
                self.found is None,
                goal == gone_on(name, self.frames()),
            invariant
                self.well_formed(),
                self.wanted() == name,
            ensures
                goal == self@,
            decreases stack_size(self.frames()),
        {
            let ghost frames = self.frames();
            let top: usize = self.stack.len() - 1;
            let next: usize = self.stack[top].next;
            let depth: usize = self.stack[top].depth;
            assert(frames.last() == self.stack@[top as int]@);
            if next == self.stack[top].entries.len() {
                let _ = self.stack.pop();
                assert(self.frames() =~= frames.drop_last());
            } else {
                let id: usize = self.stack[top].entries[next].id;
                let kind = self.stack[top].entries[next].kind;
                let ghost e = frames.last().entries[0];
                assert(e == self.stack@[top as int].entries@[next as int]@);
                let wanted = match &self.stack[top].entries[next].name {
                    Some(n) => kind == EntryKind::File && eq_ignore_ascii_case(
                        n.as_str(),
                        self.name.as_str(),
                    ),
                    None => false,
                };
                assert(wanted == is_wanted(e, name));
                if wanted {
                    self.found = Some(id);
                    break;
                }
                self.stack[top].next = next + 1;
                assert(self.stack@[top as int]@.entries =~= frames.last().entries.drop_first());
                assert(self.frames() =~= without_entry(frames));
                proof {
                    lemma_size_without_entry(frames);
                }
                if kind == EntryKind::Directory && depth > 1 {
                    self.waiting = Some((id, depth - 1));
                    break;
                }
            }
        }
    }
}

// --------------------------------------------------------------------- laws

/// The file that is found in the directory `dir` when `tree` holds the listings
/// of the directories that can be listed: the first file with the wanted name,
/// each directory being gone through, `depth` levels deep, in its place among the
/// entries.
pub open spec fn file_in(
    tree: Map<usize, Seq<EntryModel>>,
    dir: usize,
    name: Seq<char>,
    depth: nat,
) -> Option<usize>
    decreases depth, 1nat, 0nat,
{
    if depth == 0 || !tree.contains_key(dir) {
        None
    } else {
        file_among(tree, tree[dir], name, depth)
    }
}

/// The file that is found among the entries of a directory from which `depth`
/// levels may be opened, that directory included.
pub open spec fn file_among(
    tree: Map<usize, Seq<EntryModel>>,
    entries: Seq<EntryModel>,
    name: Seq<char>,
    depth: nat,
) -> Option<usize>
    decreases depth, 0nat, entries.len(),
{
    if depth == 0 || entries.len() == 0 {
        None
    } else {
        let e = entries[0];
        let here = if is_wanted(e, name) {
            Some(e.id)
        } else if e.kind == EntryKind::Directory {
            file_in(tree, e.id, name, (depth - 1) as nat)
        } else {
            None
        };
        match here {
            Some(id) => Some(id),
            None => file_among(tree, entries.drop_first(), name, depth),
        }
    }
}

/// The file that is found in the half gone through directories, the innermost
/// first.
pub open spec fn file_on_stack(
    tree: Map<usize, Seq<EntryModel>>,
    stack: Seq<FrameModel>,
    name: Seq<char>,
) -> Option<usize>
    decreases stack.len(),
{
    if stack.len() == 0 {
        None
    } else {
        match file_among(tree, stack.last().entries, name, stack.last().depth) {
            Some(id) => Some(id),
            None => file_on_stack(tree, stack.drop_last(), name),
        }
    }
}

/// What a search will come to when all its listings come from `tree`.
pub open spec fn search_result(
    tree: Map<usize, Seq<EntryModel>>,
    s: SearchModel,
    name: Seq<char>,
) -> Option<usize> {
    match s {
        SearchModel::Waiting { dir, depth, stack } => match file_in(tree, dir, name, depth) {
            Some(id) => Some(id),
            None => file_on_stack(tree, stack, name),
        },
        SearchModel::Over(r) => r,
    }
}

/// The listing that `tree` has of the directory that a search waits for.
pub open spec fn listing_from(tree: Map<usize, Seq<EntryModel>>, s: SearchModel) -> Option<
    Seq<EntryModel>,
> {
    match s {
        SearchModel::Waiting { dir, depth, stack } if tree.contains_key(dir) => Some(tree[dir]),
        _ => None,
    }
}

/// Every directory on the stack, and the one waited for, may be opened.
pub open spec fn depths_positive(s: SearchModel) -> bool {
    match s {
        SearchModel::Waiting { dir, depth, stack } => depth > 0 && stack_depths_positive(stack),
        SearchModel::Over(_) => true,
    }
}

/// Every directory on the stack may be opened.
pub open spec fn stack_depths_positive(stack: Seq<FrameModel>) -> bool {
    forall|i: int| 0 <= i < stack.len() ==> (#[trigger] stack[i]).depth > 0
}

/// A search starts on the way to the file that its directory holds.
pub proof fn law_search_starts_right(
    tree: Map<usize, Seq<EntryModel>>,
    root: usize,
    name: Seq<char>,
    max_depth: nat,
)
    ensures
        search_result(tree, search_start(root, max_depth), name) == file_in(
            tree,
            root,
            name,
            max_depth,
        ),
        depths_positive(search_start(root, max_depth)),
{
}

/// Each listing that a search takes leaves what it will come to as it was, so a
/// search that is over has found the file that its directory holds.
pub proof fn law_search_stays_right(
    tree: Map<usize, Seq<EntryModel>>,
    s: SearchModel,
    name: Seq<char>,
)
    requires
        depths_positive(s),
    ensures
        search_result(tree, search_next(name, s, listing_from(tree, s)), name) == search_result(
            tree,
            s,
            name,
        ),
        depths_positive(search_next(name, s, listing_from(tree, s))),
{
    match s {
        SearchModel::Waiting { dir, depth, stack } => {
            match listing_from(tree, s) {
                Some(entries) => {
                    let grown = stack.push(FrameModel { entries, depth });
                    assert(grown.drop_last() =~= stack);
                    lemma_going_on_stays_right(tree, grown, name);
                },
                None => {
                    lemma_going_on_stays_right(tree, stack, name);
                },
            }
        },
        SearchModel::Over(_) => {},
    }
}

/// Going through the stack finds what is on the stack.
proof fn lemma_going_on_stays_right(
    tree: Map<usize, Seq<EntryModel>>,
    stack: Seq<FrameModel>,
    name: Seq<char>,
)
    requires
        stack_depths_positive(stack),
    ensures
        search_result(tree, gone_on(name, stack), name) == file_on_stack(tree, stack, name),
        depths_positive(gone_on(name, stack)),
    decreases stack_size(stack),
{
    if stack.len() == 0 {
    } else if stack.last().entries.len() == 0 {
        lemma_going_on_stays_right(tree, stack.drop_last(), name);
    } else {
        let e = stack.last().entries[0];
        let less = without_entry(stack);
        assert(less.last().entries == stack.last().entries.drop_first());
        assert(stack[stack.len() - 1].depth > 0);
        assert(less.drop_last() =~= stack.drop_last());
        assert(stack_depths_positive(less)) by {
            assert forall|i: int| 0 <= i < less.len() implies (#[trigger] less[i]).depth > 0 by {
                assert(less[i].depth == stack[i].depth);
            }
        }
        if is_wanted(e, name) {
        } else if e.kind == EntryKind::Directory && stack.last().depth > 1 {
        } else {
            assert(file_in(tree, e.id, name, 0) is None);
            lemma_size_without_entry(stack);
            lemma_going_on_stays_right(tree, less, name);
        }
    }
}

/// The number of listings that the search of a directory can want at most.
pub open spec fn listings_in(tree: Map<usize, Seq<EntryModel>>, dir: usize, depth: nat) -> nat
    decreases depth, 1nat, 0nat,
{
    if depth == 0 {
        0
    } else if !tree.contains_key(dir) {
        1
    } else {
        1 + listings_among(tree, tree[dir], depth)
    }
}

/// The number of listings that the entries of a directory can lead to at most.
pub open spec fn listings_among(
    tree: Map<usize, Seq<EntryModel>>,
    entries: Seq<EntryModel>,
    depth: nat,
) -> nat
    decreases depth, 0nat, entries.len(),
{
    if depth == 0 || entries.len() == 0 {
        0
    } else if entries[0].kind == EntryKind::Directory {
        listings_in(tree, entries[0].id, (depth - 1) as nat) + listings_among(
            tree,
            entries.drop_first(),
            depth,
        )
    } else {
        listings_among(tree, entries.drop_first(), depth)
    }
}

/// The number of listings that the half gone through directories can lead to.
pub open spec fn listings_on_stack(
    tree: Map<usize, Seq<EntryModel>>,
    stack: Seq<FrameModel>,
) -> nat
    decreases stack.len(),
{
    if stack.len() == 0 {
        0
    } else {
        listings_among(tree, stack.last().entries, stack.last().depth) + listings_on_stack(
            tree,
            stack.drop_last(),
        )
    }
}

/// The number of listings that a search can still want at most.
pub open spec fn listings_left(tree: Map<usize, Seq<EntryModel>>, s: SearchModel) -> nat {
    match s {
        SearchModel::Waiting { dir, depth, stack } => listings_in(tree, dir, depth)
            + listings_on_stack(tree, stack),
        SearchModel::Over(_) => 0,
    }
}

/// A search ends: each listing that it takes leaves it fewer to want.
pub proof fn law_search_ends(tree: Map<usize, Seq<EntryModel>>, s: SearchModel, name: Seq<char>)
    requires
        depths_positive(s),
        s is Waiting,
    ensures
        listings_left(tree, search_next(name, s, listing_from(tree, s))) < listings_left(tree, s),
{
    match s {
        SearchModel::Waiting { dir, depth, stack } => {
            match listing_from(tree, s) {
                Some(entries) => {
                    let grown = stack.push(FrameModel { entries, depth });
                    assert(grown.drop_last() =~= stack);
                    lemma_going_on_wants_no_more(tree, grown, name);
                },
                None => {
                    lemma_going_on_wants_no_more(tree, stack, name);
                },
            }
        },
        SearchModel::Over(_) => {},
    }
}

/// Going through the stack wants no listing that was not on the stack.
proof fn lemma_going_on_wants_no_more(
    tree: Map<usize, Seq<EntryModel>>,
    stack: Seq<FrameModel>,
    name: Seq<char>,
)
    requires
        stack_depths_positive(stack),
    ensures
        listings_left(tree, gone_on(name, stack)) <= listings_on_stack(tree, stack),
    decreases stack_size(stack),
{
    if stack.len() == 0 {
    } else if stack.last().entries.len() == 0 {
        lemma_going_on_wants_no_more(tree, stack.drop_last(), name);
    } else {
        let e = stack.last().entries[0];
        let less = without_entry(stack);
        assert(stack[stack.len() - 1].depth > 0);
        assert(less.drop_last() =~= stack.drop_last());
        assert(stack_depths_positive(less)) by {
            assert forall|i: int| 0 <= i < less.len() implies (#[trigger] less[i]).depth > 0 by {
                assert(less[i].depth == stack[i].depth);
            }
        }
        if is_wanted(e, name) {
        } else if e.kind == EntryKind::Directory && stack.last().depth > 1 {
        } else {
            lemma_size_without_entry(stack);
            lemma_going_on_wants_no_more(tree, less, name);
        }
    }
}

/// A search that takes its listings from `tree` until it is over.
pub open spec fn searched(
    tree: Map<usize, Seq<EntryModel>>,
    s: SearchModel,
    name: Seq<char>,
) -> SearchModel
    decreases listings_left(tree, s),
    when depths_positive(s)
    via searched_ends
{
    if s is Waiting {
        searched(tree, search_next(name, s, listing_from(tree, s)), name)
    } else {
        s
    }
}

#[via_fn]
proof fn searched_ends(tree: Map<usize, Seq<EntryModel>>, s: SearchModel, name: Seq<char>) {
    if s is Waiting {
        law_search_ends(tree, s, name);
    }
}

/// A search comes to what was to be expected of it.
proof fn lemma_searched(tree: Map<usize, Seq<EntryModel>>, s: SearchModel, name: Seq<char>)
    requires
        depths_positive(s),
    ensures
        searched(tree, s, name) == SearchModel::Over(search_result(tree, s, name)),
    decreases listings_left(tree, s),
{
    if s is Waiting {
        law_search_ends(tree, s, name);
        law_search_stays_right(tree, s, name);
        lemma_searched(tree, search_next(name, s, listing_from(tree, s)), name);
    }
}

/// A search that takes its listings from `tree` ends, with the file that its
/// directory holds.
pub proof fn law_search_finds_the_file(
    tree: Map<usize, Seq<EntryModel>>,
    root: usize,
    name: Seq<char>,
    max_depth: nat,
)
    ensures
        searched(tree, search_start(root, max_depth), name) == SearchModel::Over(
            file_in(tree, root, name, max_depth),
        ),
{
    law_search_starts_right(tree, root, name, max_depth);
    lemma_searched(tree, search_start(root, max_depth), name);
}

/// The file `id` has the wanted name and lies in the directory `dir` or in the
/// directories inside it, `depth` levels deep.
pub open spec fn lies_below(
    tree: Map<usize, Seq<EntryModel>>,
    dir: usize,
    name: Seq<char>,
    depth: nat,
    id: usize,
) -> bool
    decreases depth,
{
    &&& depth > 0
    &&& tree.contains_key(dir)
    &&& exists|i: int|
        #![trigger tree[dir][i]]
        0 <= i < tree[dir].len() && {
            ||| is_wanted(tree[dir][i], name) && tree[dir][i].id == id
            ||| tree[dir][i].kind == EntryKind::Directory && lies_below(
                tree,
                tree[dir][i].id,
                name,
                (depth - 1) as nat,
                id,
            )
        }
}

/// What is found is a file with the wanted name that lies below the directory,
/// within the depth.
pub proof fn law_found_file_lies_below(
    tree: Map<usize, Seq<EntryModel>>,
    dir: usize,
    name: Seq<char>,
    depth: nat,
)
    ensures
        file_in(tree, dir, name, depth) matches Some(id) ==> lies_below(tree, dir, name, depth, id),
    decreases depth, 1nat, 0nat,
{
    if depth > 0 && tree.contains_key(dir) {
        assert(tree[dir].skip(0) =~= tree[dir]);
        lemma_found_among_lies_below(tree, dir, 0, name, depth);
    }
}

/// What is found from entry `from` of a directory on lies below the directory.
proof fn lemma_found_among_lies_below(
    tree: Map<usize, Seq<EntryModel>>,
    dir: usize,
    from: int,
    name: Seq<char>,
    depth: nat,
)
    requires
        tree.contains_key(dir),
        0 <= from <= tree[dir].len(),
    ensures
        file_among(tree, tree[dir].skip(from), name, depth) matches Some(id) ==> lies_below(
            tree,
            dir,
            name,
            depth,
            id,
        ),
    decreases depth, 0nat, tree[dir].len() - from,
{
    if depth > 0 && from < tree[dir].len() {
        let entries = tree[dir].skip(from);
        let e = entries[0];
        assert(e == tree[dir][from]);
        assert(entries.drop_first() =~= tree[dir].skip(from + 1));
        if !is_wanted(e, name) {
            if e.kind == EntryKind::Directory {
                law_found_file_lies_below(tree, e.id, name, (depth - 1) as nat);
            }
            lemma_found_among_lies_below(tree, dir, from + 1, name, depth);
        }
    }
}

/// A file with the wanted name that lies below the directory, within the depth,
/// is not missed: some such file is found.
pub proof fn law_file_below_is_found(
    tree: Map<usize, Seq<EntryModel>>,
    dir: usize,
    name: Seq<char>,
    depth: nat,
    id: usize,
)
    requires
        lies_below(tree, dir, name, depth, id),
    ensures
        file_in(tree, dir, name, depth) is Some,
    decreases depth,
{
    let i = choose|i: int|
        #![trigger tree[dir][i]]
        0 <= i < tree[dir].len() && {
            ||| is_wanted(tree[dir][i], name) && tree[dir][i].id == id
            ||| tree[dir][i].kind == EntryKind::Directory && lies_below(
                tree,
                tree[dir][i].id,
                name,
                (depth - 1) as nat,
                id,
            )
        };
    let e = tree[dir][i];
    if !is_wanted(e, name) {
        law_file_below_is_found(tree, e.id, name, (depth - 1) as nat, id);
    }
    lemma_found_among_from(tree, tree[dir], name, depth, i);
}

/// Entries of which one is wanted, or is a directory in which a file is found,
/// give a file.
proof fn lemma_found_among_from(
    tree: Map<usize, Seq<EntryModel>>,
    entries: Seq<EntryModel>,
    name: Seq<char>,
    depth: nat,
    i: int,
)
    requires
        depth > 0,
        0 <= i < entries.len(),
        is_wanted(entries[i], name) || (entries[i].kind == EntryKind::Directory && file_in(
            tree,
            entries[i].id,
            name,
            (depth - 1) as nat,
        ) is Some),
    ensures
        file_among(tree, entries, name, depth) is Some,
    decreases i,
{
    if i > 0 {
        lemma_found_among_from(tree, entries.drop_first(), name, depth, i - 1);
    }
}

/// Looking deeper loses nothing: where a file is found, one is found at every
/// greater depth.
pub proof fn law_deeper_search_loses_nothing(
    tree: Map<usize, Seq<EntryModel>>,
    dir: usize,
    name: Seq<char>,
    depth: nat,
    deeper: nat,
)
    requires
        depth <= deeper,
        file_in(tree, dir, name, depth) is Some,
    ensures
        file_in(tree, dir, name, deeper) is Some,
{
    let id = file_in(tree, dir, name, depth)->0;
    law_found_file_lies_below(tree, dir, name, depth);
    lemma_lies_below_deeper(tree, dir, name, depth, deeper, id);
    law_file_below_is_found(tree, dir, name, deeper, id);
}

/// What lies below a directory within a depth lies below it within a greater one.
proof fn lemma_lies_below_deeper(
    tree: Map<usize, Seq<EntryModel>>,
    dir: usize,
    name: Seq<char>,
    depth: nat,
    deeper: nat,
    id: usize,
)
    requires
        depth <= deeper,
        lies_below(tree, dir, name, depth, id),
    ensures
        lies_below(tree, dir, name, deeper, id),
    decreases depth,
{
    let i = choose|i: int|
        #![trigger tree[dir][i]]
        0 <= i < tree[dir].len() && {
            ||| is_wanted(tree[dir][i], name) && tree[dir][i].id == id
            ||| tree[dir][i].kind == EntryKind::Directory && lies_below(
                tree,
                tree[dir][i].id,
                name,
                (depth - 1) as nat,
                id,
            )
        };
    let e = tree[dir][i];
    if !(is_wanted(e, name) && e.id == id) {
        lemma_lies_below_deeper(tree, e.id, name, (depth - 1) as nat, (deeper - 1) as nat, id);
    }
}

/// Following `path` from the directory `dir`, which gives the place of an entry in
/// each listing, leads through directories to the file `id`, whose name is `name`,
/// character by character, up to the case of ASCII letters.
pub open spec fn leads_to_file(
    tree: Map<usize, Seq<EntryModel>>,
    dir: usize,
    path: Seq<int>,
    name: Seq<char>,
    id: usize,
) -> bool
    decreases path.len(),
{
    &&& path.len() > 0
    &&& tree.contains_key(dir)
    &&& 0 <= path[0] < tree[dir].len()
    &&& if path.len() == 1 {
        &&& tree[dir][path[0]].kind == EntryKind::File
        &&& tree[dir][path[0]].id == id
        &&& tree[dir][path[0]].name matches Some(n) && n.len() == name.len() && forall|i: int|
            0 <= i < n.len() ==> same_letter(#[trigger] n[i], name[i])
    } else {
        &&& tree[dir][path[0]].kind == EntryKind::Directory
        &&& leads_to_file(tree, tree[dir][path[0]].id, path.drop_first(), name, id)
    }
}

/// The path `p` comes before the path `q`: where they part, its entry stands
/// earlier in the listing.
pub open spec fn comes_before(p: Seq<int>, q: Seq<int>) -> bool
    decreases p.len(),
{
    &&& p.len() > 0
    &&& q.len() > 0
    &&& p[0] < q[0] || (p[0] == q[0] && comes_before(p.drop_first(), q.drop_first()))
}

/// `found` is the file to which the first path leads, of those that are at most
/// `depth` long and do not start before entry `from`; nothing where there is none.
pub open spec fn is_first_file(
    tree: Map<usize, Seq<EntryModel>>,
    dir: usize,
    from: int,
    name: Seq<char>,
    depth: nat,
    found: Option<usize>,
) -> bool {
    match found {
        None => forall|q: Seq<int>, other: usize| #[trigger]
            leads_to_file(tree, dir, q, name, other) && q.len() <= depth ==> q[0] < from,
        Some(id) => exists|p: Seq<int>| #[trigger]
            leads_to_file(tree, dir, p, name, id) && p.len() <= depth && from <= p[0] && (forall|
                q: Seq<int>,
                other: usize,
            | #[trigger]
                leads_to_file(tree, dir, q, name, other) && q.len() <= depth && from <= q[0] ==> q
                    == p || comes_before(p, q)),
    }
}

/// What is found in a directory is the first file there.
proof fn lemma_first_in(
    tree: Map<usize, Seq<EntryModel>>,
    dir: usize,
    name: Seq<char>,
    depth: nat,
)
    ensures
        is_first_file(tree, dir, 0, name, depth, file_in(tree, dir, name, depth)),
    decreases depth, 1nat, 0nat,
{
    if depth > 0 && tree.contains_key(dir) {
        assert(tree[dir].skip(0) =~= tree[dir]);
        lemma_first_among(tree, dir, 0, name, depth);
    }
}

/// What is found from entry `from` of a directory on is the first file there.
proof fn lemma_first_among(
    tree: Map<usize, Seq<EntryModel>>,
    dir: usize,
    from: int,
    name: Seq<char>,
    depth: nat,
)
    requires
        tree.contains_key(dir),
        0 <= from <= tree[dir].len(),
        depth > 0,
    ensures
        is_first_file(
            tree,
            dir,
            from,
            name,
            depth,
            file_among(tree, tree[dir].skip(from), name, depth),
        ),
    decreases depth, 0nat, tree[dir].len() - from,
{
    let found = file_among(tree, tree[dir].skip(from), name, depth);
    if from < tree[dir].len() {
        let entries = tree[dir].skip(from);
        let e = tree[dir][from];
        assert(e == entries[0]);
        assert(entries.drop_first() =~= tree[dir].skip(from + 1));
        if let Some(n) = e.name {
            law_case_is_ignored_letter_by_letter(n, name);
        }
        let inner = file_in(tree, e.id, name, (depth - 1) as nat);
        if is_wanted(e, name) {
            let p = seq![from];
            assert(leads_to_file(tree, dir, p, name, e.id));
            assert forall|q: Seq<int>, other: usize| #[trigger]
                leads_to_file(tree, dir, q, name, other) && q.len() <= depth && from
                    <= q[0] implies q == p || comes_before(p, q) by {
                if q[0] == from {
                    assert(q =~= p);
                }
            }
        } else if e.kind == EntryKind::Directory && inner is Some {
            lemma_first_in(tree, e.id, name, (depth - 1) as nat);
            let id = inner->0;
            let rest = choose|p: Seq<int>| #[trigger]
                leads_to_file(tree, e.id, p, name, id) && p.len() <= depth - 1 && 0 <= p[0] && (
                forall|q: Seq<int>, other: usize| #[trigger]
                    leads_to_file(tree, e.id, q, name, other) && q.len() <= depth - 1 && 0
                        <= q[0] ==> q == p || comes_before(p, q));
            let p = seq![from] + rest;
            assert(p.drop_first() =~= rest);
            assert(leads_to_file(tree, dir, p, name, id));
            assert forall|q: Seq<int>, other: usize| #[trigger]
                leads_to_file(tree, dir, q, name, other) && q.len() <= depth && from
                    <= q[0] implies q == p || comes_before(p, q) by {
                if q[0] == from {
                    assert(leads_to_file(tree, e.id, q.drop_first(), name, other));
                    if q.drop_first() == rest {
                        assert(q =~= p);
                    }
                }
            }
        } else {
            lemma_first_among(tree, dir, from + 1, name, depth);
            assert forall|q: Seq<int>, other: usize| #[trigger]
                leads_to_file(tree, dir, q, name, other) && q.len() <= depth implies q[0] != from by {
                if q[0] == from && e.kind == EntryKind::Directory {
                    lemma_first_in(tree, e.id, name, (depth - 1) as nat);
                    assert(leads_to_file(tree, e.id, q.drop_first(), name, other));
                }
            }
            assert(found == file_among(tree, tree[dir].skip(from + 1), name, depth));
        }
    }
}

/// A search that takes its listings from `tree` ends, and finds the file to which
/// the first path leads that is no longer than the depth; it finds none exactly if
/// there is no such path.
pub proof fn law_search_finds_the_first_such_file(
    tree: Map<usize, Seq<EntryModel>>,
    root: usize,
    name: Seq<char>,
    max_depth: nat,
)
    ensures
        match searched(tree, search_start(root, max_depth), name) {
            SearchModel::Over(Some(id)) => exists|p: Seq<int>| #[trigger]
                leads_to_file(tree, root, p, name, id) && p.len() <= max_depth && (forall|
                    q: Seq<int>,
                    other: usize,
                | #[trigger]
                    leads_to_file(tree, root, q, name, other) && q.len() <= max_depth ==> q == p
                        || comes_before(p, q)),
            SearchModel::Over(None) => forall|q: Seq<int>, other: usize| #[trigger]
                leads_to_file(tree, root, q, name, other) ==> q.len() > max_depth,
            SearchModel::Waiting { .. } => false,
        },
{
    law_search_finds_the_file(tree, root, name, max_depth);
    lemma_first_in(tree, root, name, max_depth);
    if let Some(id) = file_in(tree, root, name, max_depth) {
        let p = choose|p: Seq<int>| #[trigger]
            leads_to_file(tree, root, p, name, id) && p.len() <= max_depth && 0 <= p[0] && (forall|
                q: Seq<int>,
                other: usize,
            | #[trigger]
                leads_to_file(tree, root, q, name, other) && q.len() <= max_depth && 0 <= q[0] ==> q
                    == p || comes_before(p, q));
        assert(leads_to_file(tree, root, p, name, id));
    }
}

/// One listing is enough for a file in it, and for no other name: among entries of
/// which none is a directory, the first file of the wanted name is found, and none
/// exactly if there is none.
pub proof fn law_one_listing_is_searched_by_name(
    root: usize,
    name: Seq<char>,
    max_depth: nat,
    entries: Seq<EntryModel>,
    i: int,
)
    requires
        max_depth > 0,
        0 <= i <= entries.len(),
        forall|j: int|
            0 <= j < entries.len() ==> (#[trigger] entries[j]).kind != EntryKind::Directory,
        forall|j: int|
            0 <= j < i && (#[trigger] entries[j]).kind == EntryKind::File ==> (
            entries[j].name matches Some(n) ==> n.len() != name.len() || exists|k: int|
                0 <= k < n.len() && !same_letter(#[trigger] n[k], name[k])),
        i < entries.len() ==> entries[i].kind == EntryKind::File && (
        entries[i].name matches Some(n) && n.len() == name.len() && forall|k: int|
            0 <= k < n.len() ==> same_letter(#[trigger] n[k], name[k])),
    ensures
        search_next(name, search_start(root, max_depth), Some(entries)) == SearchModel::Over(
            if i < entries.len() {
                Some(entries[i].id)
            } else {
                None
            },
        ),
{
    let stack = Seq::<FrameModel>::empty().push(FrameModel { entries, depth: max_depth });
    lemma_one_listing(name, stack, i);
}

/// A single half gone through directory without directories in it is gone through
/// up to the first file of the wanted name.
proof fn lemma_one_listing(name: Seq<char>, stack: Seq<FrameModel>, i: int)
    requires
        stack.len() == 1,
        0 <= i <= stack[0].entries.len(),
        forall|j: int|
            0 <= j < stack[0].entries.len() ==> (#[trigger] stack[0].entries[j]).kind
                != EntryKind::Directory,
        forall|j: int|
            0 <= j < i && (#[trigger] stack[0].entries[j]).kind == EntryKind::File ==> (
            stack[0].entries[j].name matches Some(n) ==> n.len() != name.len() || exists|k: int|
                0 <= k < n.len() && !same_letter(#[trigger] n[k], name[k])),
        i < stack[0].entries.len() ==> stack[0].entries[i].kind == EntryKind::File && (
        stack[0].entries[i].name matches Some(n) && n.len() == name.len() && forall|k: int|
            0 <= k < n.len() ==> same_letter(#[trigger] n[k], name[k])),
    ensures
        gone_on(name, stack) == SearchModel::Over(
            if i < stack[0].entries.len() {
                Some(stack[0].entries[i].id)
            } else {
                None
            },
        ),
    decreases stack[0].entries.len(),
{
    let entries = stack[0].entries;
    if entries.len() > 0 {
        let e = entries[0];
        if let Some(n) = e.name {
            law_case_is_ignored_letter_by_letter(n, name);
        }
        if i > 0 {
            assert(!is_wanted(e, name));
            let less = without_entry(stack);
            assert forall|j: int| 0 <= j < less[0].entries.len() implies (
            #[trigger] less[0].entries[j]) == entries[j + 1] by {}
            lemma_one_listing(name, less, i - 1);
        }
    } else {
        assert(stack.drop_last() =~= Seq::<FrameModel>::empty());
        assert(gone_on(name, stack) == gone_on(name, stack.drop_last()));
        reveal_with_fuel(gone_on, 2);
    }
}

/// A directory is opened in its place, one level less deep, and only where more
/// than one level is left.
pub proof fn law_directories_are_opened_one_level_less_deep(
    name: Seq<char>,
    dir: EntryModel,
    entries: Seq<EntryModel>,
    root: usize,
    max_depth: nat,
)
    requires
        dir.kind == EntryKind::Directory,
        max_depth > 0,
    ensures
        ({
            let next = search_next(
                name,
                search_start(root, max_depth),
                Some(seq![dir] + entries),
            );
            if max_depth > 1 {
                next matches SearchModel::Waiting { dir: d, depth, .. } && d == dir.id && depth
                    == max_depth - 1
            } else {
                next == search_next(name, search_start(root, max_depth), Some(entries))
            }
        }),
{
    let all = seq![dir] + entries;
    let stack = Seq::<FrameModel>::empty().push(FrameModel { entries: all, depth: max_depth });
    assert(all.drop_first() =~= entries);
    assert(without_entry(stack) =~= Seq::<FrameModel>::empty().push(
        FrameModel { entries, depth: max_depth },
    ));
}

/// A search that is over stays so, whatever listing it is handed.
pub proof fn law_finished_search_stays(
    name: Seq<char>,
    found: Option<usize>,
    listing: Option<Seq<EntryModel>>,
)
    ensures
        search_next(name, SearchModel::Over(found), listing) == SearchModel::Over(found),
{
}

} // verus!
