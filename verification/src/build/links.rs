//! Files with several names: a copy of a tree keeps them one file.
use vstd::prelude::*;

verus! {

/// A file as a file system tells it from others.
#[derive(Debug, Clone, Copy, PartialEq, Eq, Structural)]
pub struct FileId {
    pub device: u64,
    pub inode: u64,
}

/// A name that a copy comes to: the file, how many names it has, and where the copy
/// of this name belongs.
pub struct NameModel {
    pub id: FileId,
    pub names: u64,
    pub target: Seq<char>,
}

/// The files with several names that a copy has come to, each with the place of its
/// first copy.
pub struct HardLinks {
    entries: Vec<(FileId, String)>,
}

/// The place of the first entry for a file among the first `count`.
spec fn first_place(entries: Seq<(FileId, String)>, id: FileId, count: int) -> Option<Seq<char>>
    decreases count,
{
    if count <= 0 {
        None
    } else {
        match first_place(entries, id, count - 1) {
            Some(place) => Some(place),
            None => if entries[count - 1].0 == id {
                Some(entries[count - 1].1@)
            } else {
                None
            },
        }
    }
}

/// Only the first entries matter.
proof fn lemma_first_place(
    entries: Seq<(FileId, String)>,
    more: Seq<(FileId, String)>,
    id: FileId,
    count: int,
)
    requires
        count <= entries.len(),
        entries.is_prefix_of(more),
    ensures
        first_place(entries, id, count) == first_place(more, id, count),
    decreases count,
{
    if count > 0 {
        lemma_first_place(entries, more, id, count - 1);
        assert(entries[count - 1] == more.take(entries.len() as int)[count - 1]);
    }
}

impl View for HardLinks {
    type V = Map<FileId, Seq<char>>;

    closed spec fn view(&self) -> Map<FileId, Seq<char>> {
        Map::new(
            |id: FileId| first_place(self.entries@, id, self.entries@.len() as int) is Some,
            |id: FileId| first_place(self.entries@, id, self.entries@.len() as int)->0,
        )
    }
}

/// What a copy does with a name: it links the name to an earlier copy of its file,
/// or (where there is none) copies the file.
pub open spec fn link_for(seen: Map<FileId, Seq<char>>, name: NameModel) -> Option<Seq<char>> {
    if name.names > 1 && seen.contains_key(name.id) {
        Some(seen[name.id])
    } else {
        None
    }
}

/// The files with several names after one more name.
pub open spec fn seen_after(
    seen: Map<FileId, Seq<char>>,
    name: NameModel,
) -> Map<FileId, Seq<char>> {
    if name.names > 1 && !seen.contains_key(name.id) {
        seen.insert(name.id, name.target)
    } else {
        seen
    }
}

/// The files with several names among these names.
pub open spec fn seen_among(names: Seq<NameModel>) -> Map<FileId, Seq<char>>
    decreases names.len(),
{
    if names.len() == 0 {
        Map::empty()
    } else {
        seen_after(seen_among(names.drop_last()), names.last())
    }
}

impl HardLinks {
    /// No file yet.
    pub fn new() -> (links: Self)
        ensures
            links@ == Map::<FileId, Seq<char>>::empty(),
    {
        let links = HardLinks { entries: Vec::new() };
        assert(links@ =~= Map::empty());
        links
    }

    /// Comes to a name: the place to link it to, or nothing where the file has to be
    /// copied.
    pub fn visit(&mut self, id: FileId, names: u64, target: &str) -> (link: Option<String>)
        ensures
            link.deep_view() == link_for(
                old(self)@,
                (NameModel { id, names, target: target@ }),
            ),
            final(self)@ == seen_after(
                old(self)@,
                (NameModel { id, names, target: target@ }),
            ),
    {
        if names <= 1 {
            return None;
        }
        let ghost entries = self.entries@;
        let mut at: usize = 0;
        while at < self.entries.len()
            invariant
                at <= self.entries@.len(),
                self.entries@ == entries,
                *self == *old(self),
                entries == old(self).entries@,
                names > 1,
                first_place(entries, id, at as int) is None,
            decreases self.entries@.len() - at,
        {
            if self.entries[at].0 == id {
                proof {
                    lemma_found(entries, id, at as int, entries.len() as int);
                }
                return Some(self.entries[at].1.clone());
            }
            at = at + 1;
        }
        self.entries.push((id, target.to_string()));
        proof {
            let now = self.entries@;
            let count = entries.len() as int;
            assert(entries.is_prefix_of(now));
            assert forall|other: FileId| #[trigger]
                first_place(now, other, count + 1) == (if other == id {
                    Some(target@)
                } else {
                    first_place(entries, other, count)
                }) by {
                lemma_first_place(entries, now, other, count);
            }
            assert(now.len() == count + 1);
            assert(self@ =~= old(self)@.insert(id, target@));
        }
        None
    }
}

/// The first entry for a file decides.
proof fn lemma_found(entries: Seq<(FileId, String)>, id: FileId, at: int, count: int)
    requires
        0 <= at < count <= entries.len(),
        entries[at].0 == id,
        first_place(entries, id, at) is None,
    ensures
        first_place(entries, id, count) == Some(entries[at].1@),
    decreases count,
{
    if count > at + 1 {
        lemma_found(entries, id, at, count - 1);
    }
}

/// A file that was come to keeps its place.
proof fn lemma_seen_stays(names: Seq<NameModel>, i: int, j: int)
    requires
        0 <= i < j <= names.len(),
        names[i].names > 1,
    ensures
        seen_among(names.take(i + 1)).contains_key(names[i].id),
        seen_among(names.take(j)).contains_key(names[i].id),
        seen_among(names.take(j))[names[i].id] == seen_among(names.take(i + 1))[names[i].id],
    decreases j,
{
    assert(names.take(j).drop_last() =~= names.take(j - 1));
    assert(names.take(j).last() == names[j - 1]);
    if j > i + 1 {
        lemma_seen_stays(names, i, j - 1);
    }
}

/// A place is that of a name of the file.
proof fn lemma_seen_is_named(names: Seq<NameModel>, id: FileId)
    requires
        seen_among(names).contains_key(id),
    ensures
        exists|i: int|
            0 <= i < names.len() && (#[trigger] names[i]).id == id && names[i].names > 1
                && names[i].target == seen_among(names)[id] && !seen_among(
                names.take(i),
            ).contains_key(id),
    decreases names.len(),
{
    let before = names.drop_last();
    if names.len() > 0 {
        if seen_among(before).contains_key(id) {
            lemma_seen_is_named(before, id);
            let i = choose|i: int|
                0 <= i < before.len() && (#[trigger] before[i]).id == id && before[i].names > 1
                    && before[i].target == seen_among(before)[id] && !seen_among(
                    before.take(i),
                ).contains_key(id);
            assert(names[i] == before[i]);
            assert(names.take(i) =~= before.take(i));
        } else {
            let i = names.len() - 1;
            assert(names.take(i) =~= before);
            assert(names[i].id == id);
        }
    }
}

/// The names of one file stay names of one file: the first of them is copied, and
/// each later one is linked to that copy.
pub proof fn names_of_a_file_stay_together(names: Seq<NameModel>, first: int, later: int)
    requires
        0 <= first < later < names.len(),
        names[first].id == names[later].id,
        names[first].names > 1,
        names[later].names > 1,
        link_for(seen_among(names.take(first)), names[first]) is None,
    ensures
        link_for(seen_among(names.take(later)), names[later]) == Some(names[first].target),
{
    lemma_seen_stays(names, first, later);
    assert(names.take(first + 1).drop_last() =~= names.take(first));
    assert(names.take(first + 1).last() == names[first]);
}

/// Different files stay apart: a name is only ever linked to the copy of an earlier
/// name of its own file, and that copy is no link itself.
pub proof fn links_stay_within_a_file(names: Seq<NameModel>, later: int)
    requires
        0 <= later < names.len(),
        link_for(seen_among(names.take(later)), names[later]) is Some,
    ensures
        exists|first: int|
            0 <= first < later && (#[trigger] names[first]).id == names[later].id && link_for(
                seen_among(names.take(later)),
                names[later],
            ) == Some(names[first].target) && link_for(
                seen_among(names.take(first)),
                names[first],
            ) is None,
{
    let id = names[later].id;
    let before = names.take(later);
    lemma_seen_is_named(before, id);
    let first = choose|i: int|
        0 <= i < before.len() && (#[trigger] before[i]).id == id && before[i].names > 1
            && before[i].target == seen_among(before)[id] && !seen_among(
            before.take(i),
        ).contains_key(id);
    assert(before[first] == names[first]);
    assert(before.take(first) =~= names.take(first));
}

} // verus!
