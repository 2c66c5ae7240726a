//! Walking a source folder tree to a bounded depth, and choosing which of
//! its files are converted and where each output goes.
//!
//! The walk does no I/O: [`FolderWalk::next_folder`] names the folder to
//! list next, the caller lists it, and [`FolderWalk::visit`] takes the
//! listing and returns the conversions to perform there.

use vstd::prelude::*;
use crate::eligibility::{eligible, is_transcode_eligible};
use crate::paths::{
    file_extension, is_toml_name, join, json_file_name, json_name, toml_extension,
};

verus! {

/// One entry of a folder listing.
#[derive(Debug)]
pub struct DirEntry {
    /// The entry's file name, without its folder.
    pub name: String,
    pub is_dir: bool,
    /// Seconds since the entry was last modified (0 for a time in the future).
    pub age: u64,
}

impl View for DirEntry {
    type V = (Seq<char>, bool, u64);

    open spec fn view(&self) -> (Seq<char>, bool, u64) {
        (self.name@, self.is_dir, self.age)
    }
}

/// A file to convert: the TOML file read and the JSON file written.
#[derive(Debug)]
pub struct Conversion {
    pub source: Vec<String>,
    pub target: Vec<String>,
}

impl View for Conversion {
    type V = (Seq<Seq<char>>, Seq<Seq<char>>);

    open spec fn view(&self) -> (Seq<Seq<char>>, Seq<Seq<char>>) {
        (self.source.deep_view(), self.target.deep_view())
    }
}

/// A folder still to be listed: its path below the source root, and how
/// many levels below it may still be walked.
#[derive(Debug)]
pub struct PendingDir {
    pub rel: Vec<String>,
    pub depth: usize,
}

impl View for PendingDir {
    type V = (Seq<Seq<char>>, nat);

    open spec fn view(&self) -> (Seq<Seq<char>>, nat) {
        (self.rel.deep_view(), self.depth as nat)
    }
}

pub open spec fn entries_view(entries: Seq<DirEntry>) -> Seq<(Seq<char>, bool, u64)> {
    entries.map_values(|e: DirEntry| e@)
}

pub open spec fn conversions_view(cs: Seq<Conversion>) -> Seq<(Seq<Seq<char>>, Seq<Seq<char>>)> {
    cs.map_values(|c: Conversion| c@)
}

pub open spec fn pending_view(ps: Seq<PendingDir>) -> Seq<(Seq<Seq<char>>, nat)> {
    ps.map_values(|p: PendingDir| p@)
}

/// An entry is converted when it is a file with the `toml` extension that
/// passes the modification filter.
pub open spec fn selected(e: (Seq<char>, bool, u64), modified: Option<u64>) -> bool {
    &&& !e.1
    &&& file_extension(e.0) == Some(toml_extension())
    &&& eligible(e.2, modified)
}

/// The conversion of the file `name` in the folder `rel` below the source
/// root: the output lies at the same place below the target root.
pub open spec fn conversion_of(
    source: Seq<Seq<char>>,
    target: Seq<Seq<char>>,
    rel: Seq<Seq<char>>,
    name: Seq<char>,
) -> (Seq<Seq<char>>, Seq<Seq<char>>) {
    (source + rel.push(name), target + rel.push(json_name(name)))
}

/// The conversions for one folder listing, in listing order.
pub open spec fn folder_conversions(
    source: Seq<Seq<char>>,
    target: Seq<Seq<char>>,
    rel: Seq<Seq<char>>,
    entries: Seq<(Seq<char>, bool, u64)>,
    modified: Option<u64>,
) -> Seq<(Seq<Seq<char>>, Seq<Seq<char>>)>
    decreases entries.len(),
{
    if entries.len() == 0 {
        Seq::empty()
    } else {
        let rest = folder_conversions(source, target, rel, entries.drop_last(), modified);
        if selected(entries.last(), modified) {
            rest.push(conversion_of(source, target, rel, entries.last().0))
        } else {
            rest
        }
    }
}

/// The subfolders of a listing that are still to be walked: none when no
/// depth is left, else every folder entry, with one level less.
pub open spec fn child_dirs(
    rel: Seq<Seq<char>>,
    depth: nat,
    entries: Seq<(Seq<char>, bool, u64)>,
) -> Seq<(Seq<Seq<char>>, nat)>
    decreases entries.len(),
{
    if depth == 0 || entries.len() == 0 {
        Seq::empty()
    } else {
        let rest = child_dirs(rel, depth, entries.drop_last());
        if entries.last().1 {
            rest.push((rel.push(entries.last().0), (depth - 1) as nat))
        } else {
            rest
        }
    }
}

proof fn lemma_entries_prefix(entries: Seq<DirEntry>, i: int)
    requires
        0 <= i < entries.len(),
    ensures
        entries_view(entries.subrange(0, i + 1)).drop_last() == entries_view(
            entries.subrange(0, i),
        ),
        entries_view(entries.subrange(0, i + 1)).last() == entries[i]@,
        entries_view(entries.subrange(0, i + 1)).len() == i + 1,
{
    assert(entries_view(entries.subrange(0, i + 1)).drop_last() =~= entries_view(
        entries.subrange(0, i),
    ));
}

fn copy_parts(p: &Vec<String>) -> (r: Vec<String>)
    ensures
        r.deep_view() == p.deep_view(),
{
    let empty: Vec<String> = Vec::new();
    assert(empty.deep_view() =~= Seq::<Seq<char>>::empty());
    let r = join(p, &empty);
    assert(p.deep_view() + empty.deep_view() =~= p.deep_view());
    r
}

fn push_part(p: &Vec<String>, name: String) -> (r: Vec<String>)
    ensures
        r.deep_view() == p.deep_view().push(name@),
{
    let mut r = copy_parts(p);
    let ghost before = r.deep_view();
    r.push(name);
    assert(r.deep_view() =~= before.push(name@));
    r
}

/// The files of one folder listing to convert: each file with the `toml`
/// extension whose age passes `modified`, read from `source/rel/name` and
/// written to `target/rel/<name with the json extension>`.
pub fn from_toml_folder(
    source: &Vec<String>,
    target: &Vec<String>,
    rel: &Vec<String>,
    entries: &Vec<DirEntry>,
    modified: Option<u64>,
) -> (r: Vec<Conversion>)
    ensures
        conversions_view(r@) == folder_conversions(
            source.deep_view(),
            target.deep_view(),
            rel.deep_view(),
            entries_view(entries@),
            modified,
        ),
{
    let mut r: Vec<Conversion> = Vec::new();
    let mut i: usize = 0;
    assert(entries@.subrange(0, 0) =~= Seq::<DirEntry>::empty());
    assert(entries_view(entries@.subrange(0, 0)) =~= Seq::empty());
    while i < entries.len()
        invariant
            i <= entries.len(),
            conversions_view(r@) == folder_conversions(
                source.deep_view(),
                target.deep_view(),
                rel.deep_view(),
                entries_view(entries@.subrange(0, i as int)),
                modified,
            ),
        decreases entries.len() - i,
    {
        let e = &entries[i];
        proof {
            lemma_entries_prefix(entries@, i as int);
        }
        let ghost before = conversions_view(r@);
        if !e.is_dir && is_toml_name(e.name.as_str()) && is_transcode_eligible(e.age, modified) {
            let src = join(source, &push_part(rel, e.name.clone()));
            let tgt = join(target, &push_part(rel, json_file_name(e.name.as_str())));
            r.push(Conversion { source: src, target: tgt });
            assert(conversions_view(r@) =~= before.push(
                conversion_of(source.deep_view(), target.deep_view(), rel.deep_view(), e.name@),
            ));
        }
        i = i + 1;
    }
    assert(entries@.subrange(0, entries.len() as int) =~= entries@);
    r
}

/// The entries of a listing that are folders, as pending folders one level
/// below `rel`, in listing order; none where `depth` is 0.
fn child_folders(rel: &Vec<String>, depth: usize, entries: &Vec<DirEntry>) -> (r: Vec<PendingDir>)
    ensures
        pending_view(r@) == child_dirs(rel.deep_view(), depth as nat, entries_view(entries@)),
{
    let mut r: Vec<PendingDir> = Vec::new();
    if depth == 0 {
        assert(pending_view(r@) =~= Seq::empty());
        return r;
    }
    let mut i: usize = 0;
    assert(entries_view(entries@.subrange(0, 0)) =~= Seq::empty());
    while i < entries.len()
        invariant
            depth > 0,
            i <= entries.len(),
            pending_view(r@) == child_dirs(
                rel.deep_view(),
                depth as nat,
                entries_view(entries@.subrange(0, i as int)),
            ),
        decreases entries.len() - i,
    {
        let e = &entries[i];
        proof {
            lemma_entries_prefix(entries@, i as int);
        }
        let ghost before = pending_view(r@);
        if e.is_dir {
            r.push(PendingDir { rel: push_part(rel, e.name.clone()), depth: depth - 1 });
            assert(pending_view(r@) =~= before.push(
                (rel.deep_view().push(e.name@), (depth - 1) as nat),
            ));
        }
        i = i + 1;
    }
    assert(entries@.subrange(0, entries.len() as int) =~= entries@);
    r
}

/// The walk of a source folder tree, mirrored below a target folder.
///
/// `pending` is a stack of the folders still to be listed; its last element
/// is listed next.
#[derive(Debug)]
pub struct FolderWalk {
    pub source: Vec<String>,
    pub target: Vec<String>,
    pub modified: Option<u64>,
    pub pending: Vec<PendingDir>,
}

/// Starts the conversion of the folder `source` into the folder `target`:
/// the root is listed first, and subfolders down to `recursion` levels
/// below it (0: the root alone).
pub fn from_toml_folders(
    source: Vec<String>,
    target: Vec<String>,
    modified: Option<u64>,
    recursion: usize,
) -> (r: FolderWalk)
    ensures
        r.source.deep_view() == source.deep_view(),
        r.target.deep_view() == target.deep_view(),
        r.modified == modified,
        pending_view(r.pending@) == seq![(Seq::<Seq<char>>::empty(), recursion as nat)],
{
    let root: Vec<String> = Vec::new();
    assert(root.deep_view() =~= Seq::<Seq<char>>::empty());
    let mut pending: Vec<PendingDir> = Vec::new();
    pending.push(PendingDir { rel: root, depth: recursion });
    assert(pending_view(pending@) =~= seq![(Seq::<Seq<char>>::empty(), recursion as nat)]);
    FolderWalk { source, target, modified, pending }
}

impl FolderWalk {
    /// The folder to list next, and the folder its outputs go to; `None`
    /// once the walk is over.
    pub fn next_folder(&self) -> (r: Option<(Vec<String>, Vec<String>)>)
        ensures
            match r {
                Some((s, t)) => self.pending@.len() > 0 && s.deep_view() == self.source.deep_view()
                    + self.pending@.last()@.0 && t.deep_view() == self.target.deep_view()
                    + self.pending@.last()@.0,
                None => self.pending@.len() == 0,
            },
    {
        let n = self.pending.len();
        if n == 0 {
            return None;
        }
        let top = &self.pending[n - 1];
        Some((join(&self.source, &top.rel), join(&self.target, &top.rel)))
    }

    /// Takes the listing of the folder that [`next_folder`](Self::next_folder)
    /// named: returns the conversions to perform there, and queues its
    /// subfolders while depth is left.
    pub fn visit(&mut self, entries: &Vec<DirEntry>) -> (r: Vec<Conversion>)
        requires
            old(self).pending@.len() > 0,
        ensures
            final(self).source == old(self).source,
            final(self).target == old(self).target,
            final(self).modified == old(self).modified,
            pending_view(final(self).pending@) == pending_view(old(self).pending@.drop_last())
                + child_dirs(
                old(self).pending@.last()@.0,
                old(self).pending@.last()@.1,
                entries_view(entries@),
            ),
            conversions_view(r@) == folder_conversions(
                old(self).source.deep_view(),
                old(self).target.deep_view(),
                old(self).pending@.last()@.0,
                entries_view(entries@),
                old(self).modified,
            ),
    {
        let top = self.pending.pop().unwrap();
        let r = from_toml_folder(&self.source, &self.target, &top.rel, entries, self.modified);
        let children = child_folders(&top.rel, top.depth, entries);
        let ghost before = self.pending@;
        let mut i: usize = 0;
        while i < children.len()
            invariant
                i <= children.len(),
                self.source == old(self).source,
                self.target == old(self).target,
                self.modified == old(self).modified,
                pending_view(self.pending@) == pending_view(before) + pending_view(
                    children@.subrange(0, i as int),
                ),
            decreases children.len() - i,
        {
            let ghost prev = self.pending@;
            let c = &children[i];
            self.pending.push(PendingDir { rel: copy_parts(&c.rel), depth: c.depth });
            assert(pending_view(children@.subrange(0, i + 1)) =~= pending_view(
                children@.subrange(0, i as int),
            ).push(children@[i as int]@));
            assert(pending_view(self.pending@) =~= pending_view(prev).push(children@[i as int]@));
            i = i + 1;
        }
        assert(children@.subrange(0, children.len() as int) =~= children@);
        assert(before =~= old(self).pending@.drop_last());
        r
    }

    /// Drops the folder that [`next_folder`](Self::next_folder) named, for a
    /// listing that could not be read: nothing below it is walked.
    pub fn skip(&mut self)
        requires
            old(self).pending@.len() > 0,
        ensures
            final(self).source == old(self).source,
            final(self).target == old(self).target,
            final(self).modified == old(self).modified,
            final(self).pending@ == old(self).pending@.drop_last(),
    {
        self.pending.pop();
    }
}

/// `c` converts a selected file of the listing `entries` of folder `rel`.
pub open spec fn from_listing(
    c: (Seq<Seq<char>>, Seq<Seq<char>>),
    source: Seq<Seq<char>>,
    target: Seq<Seq<char>>,
    rel: Seq<Seq<char>>,
    entries: Seq<(Seq<char>, bool, u64)>,
    modified: Option<u64>,
) -> bool {
    exists|j: int|
        0 <= j < entries.len() && selected(#[trigger] entries[j], modified) && c == conversion_of(
            source,
            target,
            rel,
            entries[j].0,
        )
}

/// Every conversion of a listing reads a selected file of that listing, in
/// the listed folder.
pub proof fn lemma_conversions_come_from_listing(
    source: Seq<Seq<char>>,
    target: Seq<Seq<char>>,
    rel: Seq<Seq<char>>,
    entries: Seq<(Seq<char>, bool, u64)>,
    modified: Option<u64>,
)
    ensures
        forall|i: int|
            0 <= i < folder_conversions(source, target, rel, entries, modified).len()
                ==> from_listing(
                #[trigger] folder_conversions(source, target, rel, entries, modified)[i],
                source,
                target,
                rel,
                entries,
                modified,
            ),
    decreases entries.len(),
{
    if entries.len() > 0 {
        let prefix = entries.drop_last();
        lemma_conversions_come_from_listing(source, target, rel, prefix, modified);
        let all = folder_conversions(source, target, rel, entries, modified);
        let rest = folder_conversions(source, target, rel, prefix, modified);
        assert forall|i: int| 0 <= i < all.len() implies from_listing(
            #[trigger] all[i],
            source,
            target,
            rel,
            entries,
            modified,
        ) by {
            if i < rest.len() {
                assert(all[i] == rest[i]);
                assert(from_listing(rest[i], source, target, rel, prefix, modified));
                let j = choose|j: int|
                    0 <= j < prefix.len() && selected(#[trigger] prefix[j], modified) && rest[i]
                        == conversion_of(source, target, rel, prefix[j].0);
                assert(entries[j] == prefix[j]);
            } else {
                let j = entries.len() - 1;
                assert(entries[j] == entries.last());
            }
        }
    }
}

/// `c` converts a file listed directly inside the source root.
pub open spec fn root_file(
    c: (Seq<Seq<char>>, Seq<Seq<char>>),
    source: Seq<Seq<char>>,
    target: Seq<Seq<char>>,
    entries: Seq<(Seq<char>, bool, u64)>,
) -> bool {
    exists|j: int|
        0 <= j < entries.len() && !(#[trigger] entries[j]).1 && c == (
            source.push(entries[j].0),
            target.push(json_name(entries[j].0)),
        )
}

/// With recursion depth 0 the walk lists the source root alone: no subfolder
/// is queued, and every file converted lies directly inside the root.
pub proof fn lemma_depth_zero_converts_root_only(
    source: Seq<Seq<char>>,
    target: Seq<Seq<char>>,
    entries: Seq<(Seq<char>, bool, u64)>,
    modified: Option<u64>,
)
    ensures
        child_dirs(Seq::empty(), 0, entries).len() == 0,
        forall|i: int|
            0 <= i < folder_conversions(source, target, Seq::empty(), entries, modified).len()
                ==> root_file(
                #[trigger] folder_conversions(source, target, Seq::empty(), entries, modified)[i],
                source,
                target,
                entries,
            ),
{
    lemma_conversions_come_from_listing(source, target, Seq::empty(), entries, modified);
    let all = folder_conversions(source, target, Seq::empty(), entries, modified);
    assert forall|i: int| 0 <= i < all.len() implies root_file(
        #[trigger] all[i],
        source,
        target,
        entries,
    ) by {
        assert(from_listing(all[i], source, target, Seq::empty(), entries, modified));
        let j = choose|j: int|
            0 <= j < entries.len() && selected(#[trigger] entries[j], modified) && all[i]
                == conversion_of(source, target, Seq::empty(), entries[j].0);
        assert(source + Seq::<Seq<char>>::empty().push(entries[j].0) =~= source.push(
            entries[j].0,
        ));
        assert(target + Seq::<Seq<char>>::empty().push(json_name(entries[j].0)) =~= target.push(
            json_name(entries[j].0),
        ));
    }
}

} // verus!
