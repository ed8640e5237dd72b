//! What is known of the file system: for each probed path, whether it is
//! missing, present but unreadable, or readable with a given text.

use vstd::prelude::*;

verus! {

/// What probing a path found.
#[derive(Debug)]
pub enum FileState {
    /// Nothing exists at the path.
    Missing,
    /// Something exists at the path but its text could not be read.
    Unreadable,
    /// The path names a file with this text.
    Text(String),
}

/// The mathematical value of a `FileState`.
pub enum FileView {
    Missing,
    Unreadable,
    Text(Seq<char>),
}

impl View for FileState {
    type V = FileView;

    open spec fn view(&self) -> FileView {
        match self {
            FileState::Missing => FileView::Missing,
            FileState::Unreadable => FileView::Unreadable,
            FileState::Text(s) => FileView::Text(s@),
        }
    }
}

impl FileState {
    /// A copy of this state.
    pub fn duplicate(&self) -> (r: FileState)
        ensures
            r@ == self@,
    {
        match self {
            FileState::Missing => FileState::Missing,
            FileState::Unreadable => FileState::Unreadable,
            FileState::Text(s) => FileState::Text(s.clone()),
        }
    }
}

/// The map that a list of probes describes; a later probe of a path
/// replaces an earlier one.
pub open spec fn table_map(s: Seq<(String, FileState)>) -> Map<Seq<char>, FileView>
    decreases s.len(),
{
    if s.len() == 0 {
        Map::empty()
    } else {
        table_map(s.drop_last()).insert(s.last().0@, s.last().1@)
    }
}

proof fn lemma_table_map_finite(s: Seq<(String, FileState)>)
    ensures
        table_map(s).dom().finite(),
    decreases s.len(),
{
    if s.len() > 0 {
        lemma_table_map_finite(s.drop_last());
    }
}

/// Entries from index `k` on that do not name `p` leave its value alone.
proof fn lemma_table_map_prefix(s: Seq<(String, FileState)>, k: int, p: Seq<char>)
    requires
        0 <= k <= s.len(),
        forall|j: int| k <= j < s.len() ==> s[j].0@ != p,
    ensures
        table_map(s).contains_key(p) == table_map(s.subrange(0, k)).contains_key(p),
        table_map(s).contains_key(p) ==> table_map(s)[p] == table_map(s.subrange(0, k))[p],
    decreases s.len(),
{
    if s.len() == k {
        assert(s.subrange(0, k) =~= s);
    } else {
        lemma_table_map_prefix(s.drop_last(), k, p);
        assert(s.drop_last().subrange(0, k) =~= s.subrange(0, k));
    }
}

/// The probes made so far, keyed by path.
pub struct FileTable {
    entries: Vec<(String, FileState)>,
}

impl View for FileTable {
    type V = Map<Seq<char>, FileView>;

    closed spec fn view(&self) -> Map<Seq<char>, FileView> {
        table_map(self.entries@)
    }
}

impl FileTable {
    /// A table that knows nothing.
    pub fn new() -> (r: FileTable)
        ensures
            r@ == Map::<Seq<char>, FileView>::empty(),
    {
        FileTable { entries: Vec::new() }
    }

    /// A table only ever knows finitely many paths.
    pub proof fn lemma_finite(&self)
        ensures
            self@.dom().finite(),
    {
        lemma_table_map_finite(self.entries@);
    }

    /// Records what probing `path` found.
    pub fn insert(&mut self, path: String, state: FileState)
        ensures
            final(self)@ == old(self)@.insert(path@, state@),
    {
        let ghost before = self.entries@;
        self.entries.push((path, state));
        assert(self.entries@.drop_last() =~= before);
    }

    /// What is known of `path`, or `None` where it has not been probed.
    pub fn lookup(&self, path: &String) -> (r: Option<FileState>)
        ensures
            r is Some <==> self@.contains_key(path@),
            r is Some ==> self@[path@] == r->0@,
    {
        let mut i: usize = self.entries.len();
        while i > 0
            invariant
                i <= self.entries.len(),
                forall|j: int| i <= j < self.entries.len() ==> self.entries@[j].0@ != path@,
            decreases i,
        {
            i = i - 1;
            if self.entries[i].0 == *path {
                proof {
                    lemma_table_map_prefix(self.entries@, i + 1, path@);
                    assert(self.entries@.subrange(0, i + 1).drop_last() =~= self.entries@.subrange(
                        0,
                        i as int,
                    ));
                }
                return Some(self.entries[i].1.duplicate());
            }
        }
        proof {
            lemma_table_map_prefix(self.entries@, 0, path@);
        }
        None
    }
}

} // verus!
