//! The paths that a copy writes.
use crate::build::diff::{is_ephemeral_build_support_path, is_support, FileKind};
use crate::path::{absolute, ancestors, join_path, lineage, names, path_joined};
use crate::sequence::{lemma_filter_empty, lemma_filter_next};
use crate::text::{begins, glue, has_text, starts_with};
use vstd::prelude::*;

verus! {

/// A path of a source's tree.
#[derive(Debug)]
pub struct SourceItem {
    /// The path below the source.
    pub relative: String,
    pub kind: FileKind,
}

/// What is copied.
#[derive(Debug)]
pub enum CopiedSource {
    /// Something that is no directory.
    Single(FileKind),
    /// A directory with what is below it.
    Tree(Vec<SourceItem>),
}

/// A path that was written.
#[derive(Debug)]
pub struct WrittenPath {
    pub path: String,
    /// What is in the place of the path is followed: only a link is set itself.
    pub through_links: bool,
}

/// A [`WrittenPath`] as a mathematical value.
#[verifier::ext_equal]
pub struct WrittenModel {
    pub path: Seq<char>,
    pub through_links: bool,
}

impl DeepView for WrittenPath {
    type V = WrittenModel;

    open spec fn deep_view(&self) -> WrittenModel {
        WrittenModel { path: self.path@, through_links: self.through_links }
    }
}

/// The path has to be made on the way: it lies below the root and was not there.
pub open spec fn is_made(root: Seq<char>, present: Seq<Seq<char>>, path: Seq<char>) -> bool {
    begins(path, root + "/"@) && !present.contains(path)
}

/// What is made on the way to a target, and the target itself where it was not there.
pub open spec fn made_for(root: Seq<char>, present: Seq<Seq<char>>, target: Seq<char>) -> Seq<
    WrittenModel,
> {
    lineage(target).filter(|path: Seq<char>| is_made(root, present, path)).map_values(
        |path: Seq<char>| WrittenModel { path, through_links: true },
    )
}

/// What copying one path of a tree writes.
pub open spec fn written_item(target: Seq<char>, item: SourceItem) -> WrittenModel {
    WrittenModel {
        path: path_joined(target, item.relative@),
        through_links: !(item.kind is Symlink),
    }
}

/// What copying to a target writes.
pub open spec fn copied_to(target: Seq<char>, source: CopiedSource) -> Seq<WrittenModel> {
    match source {
        CopiedSource::Single(kind) => seq![
            WrittenModel { path: target, through_links: !(kind is Symlink) },
        ],
        CopiedSource::Tree(items) => items@.filter(
            |item: SourceItem| !is_support(item.relative@),
        ).map_values(|item: SourceItem| written_item(target, item)),
    }
}

/// The directories that have to be made for a target below a root. `present` are the
/// paths on the way to it, and the target, that were there before.
pub fn made_paths(root: &str, present: &Vec<String>, target: &str) -> (paths: Vec<WrittenPath>)
    ensures
        paths.deep_view() == made_for(root@, present.deep_view(), target@),
{
    let prefix = glue(root, "/");
    let line = ancestors(target);
    let ghost all = lineage(target@);
    let ghost wanted = |path: Seq<char>| is_made(root@, present.deep_view(), path);
    let ghost told = |path: Seq<char>| WrittenModel { path, through_links: true };
    let mut paths: Vec<WrittenPath> = Vec::new();
    let mut at: usize = 0;
    proof {
        lemma_filter_empty(all.take(0), wanted);
        assert(paths.deep_view() =~= all.take(0).filter(wanted).map_values(told));
    }
    while at < line.len()
        invariant
            at <= line@.len(),
            line.deep_view() == all,
            prefix@ == root@ + "/"@,
            wanted == (|path: Seq<char>| is_made(root@, present.deep_view(), path)),
            told == (|path: Seq<char>| WrittenModel { path, through_links: true }),
            paths.deep_view() == all.take(at as int).filter(wanted).map_values(told),
        decreases line@.len() - at,
    {
        let ghost before = all.take(at as int).filter(wanted);
        let path = &line[at];
        assert(all[at as int] == path@);
        proof {
            lemma_filter_next(all, at as int, wanted);
        }
        if starts_with(path, &prefix) && !has_text(present, path) {
            let ghost list = paths.deep_view();
            let written = WrittenPath { path: path.clone(), through_links: true };
            paths.push(written);
            assert(paths.deep_view() =~= list.push(told(path@)));
            assert(before.push(path@).map_values(told) =~= before.map_values(told).push(
                told(path@),
            ));
        }
        at = at + 1;
    }
    assert(all.take(at as int) =~= all);
    paths
}

/// The paths that copying a source to a target writes.
pub fn copied_paths(target: &str, source: &CopiedSource) -> (paths: Vec<WrittenPath>)
    ensures
        paths.deep_view() == copied_to(target@, *source),
{
    let mut paths: Vec<WrittenPath> = Vec::new();
    match source {
        CopiedSource::Single(kind) => {
            let through_links = match kind {
                FileKind::Symlink => false,
                _ => true,
            };
            paths.push(WrittenPath { path: target.to_string(), through_links });
            assert(paths.deep_view() =~= copied_to(target@, *source));
        },
        CopiedSource::Tree(items) => {
            let ghost wanted = |item: SourceItem| !is_support(item.relative@);
            let ghost told = |item: SourceItem| written_item(target@, item);
            let mut at: usize = 0;
            proof {
                lemma_filter_empty(items@.take(0), wanted);
                assert(paths.deep_view() =~= items@.take(0).filter(wanted).map_values(told));
            }
            while at < items.len()
                invariant
                    at <= items@.len(),
                    wanted == (|item: SourceItem| !is_support(item.relative@)),
                    told == (|item: SourceItem| written_item(target@, item)),
                    paths.deep_view() == items@.take(at as int).filter(wanted).map_values(told),
                decreases items@.len() - at,
            {
                let ghost before = items@.take(at as int).filter(wanted);
                let item = &items[at];
                proof {
                    lemma_filter_next(items@, at as int, wanted);
                }
                if !is_ephemeral_build_support_path(&item.relative) {
                    let ghost list = paths.deep_view();
                    let through_links = match item.kind {
                        FileKind::Symlink => false,
                        _ => true,
                    };
                    let written = WrittenPath {
                        path: join_path(target, &item.relative),
                        through_links,
                    };
                    paths.push(written);
                    assert(paths.deep_view() =~= list.push(told(*item)));
                    assert(before.push(*item).map_values(told) =~= before.map_values(told).push(
                        told(*item),
                    ));
                }
                at = at + 1;
            }
            assert(items@.take(at as int) =~= items@);
        },
    }
    paths
}

/// A copy writes each path of its source that is no support path, at its place below
/// the target, and nothing else.
pub proof fn copies_write_their_source(target: Seq<char>, items: Vec<SourceItem>, i: int)
    requires
        0 <= i < items@.len(),
    ensures
        !is_support(items@[i].relative@) ==> copied_to(target, CopiedSource::Tree(items)).contains(
            written_item(target, items@[i]),
        ),
        forall|k: int|
            0 <= k < copied_to(target, CopiedSource::Tree(items)).len() ==> is_written_from(
                target,
                items@,
                #[trigger] copied_to(target, CopiedSource::Tree(items))[k],
            ),
{
    let wanted = |item: SourceItem| !is_support(item.relative@);
    let kept = items@.filter(wanted);
    if !is_support(items@[i].relative@) {
        items@.lemma_filter_contains(wanted, i);
        let k = kept.index_of(items@[i]);
        assert(copied_to(target, CopiedSource::Tree(items))[k] == written_item(
            target,
            items@[i],
        ));
    }
    assert forall|k: int|
        0 <= k < copied_to(target, CopiedSource::Tree(items)).len() implies is_written_from(
        target,
        items@,
        #[trigger] copied_to(target, CopiedSource::Tree(items))[k],
    ) by {
        items@.lemma_filter_pred(wanted, k);
        assert(kept.contains(kept[k]));
        items@.lemma_filter_contains_rev(wanted, kept[k]);
        let j = items@.index_of(kept[k]);
        assert(written_item(target, items@[j]) == copied_to(
            target,
            CopiedSource::Tree(items),
        )[k]);
    }
}

/// The path is written for one of the items.
pub open spec fn is_written_from(
    target: Seq<char>,
    items: Seq<SourceItem>,
    path: WrittenModel,
) -> bool {
    exists|j: int|
        0 <= j < items.len() && !is_support(items[j].relative@) && #[trigger] written_item(
            target,
            items[j],
        ) == path
}

/// Only what is below the root and was not there is made on the way to a target.
pub proof fn present_paths_are_not_made(
    root: Seq<char>,
    present: Seq<Seq<char>>,
    target: Seq<char>,
    i: int,
)
    ensures
        0 <= i < made_for(root, present, target).len() ==> is_made(
            root,
            present,
            made_for(root, present, target)[i].path,
        ) && lineage(target).contains(made_for(root, present, target)[i].path),
{
    let wanted = |path: Seq<char>| is_made(root, present, path);
    let kept = lineage(target).filter(wanted);
    if 0 <= i < kept.len() {
        lineage(target).lemma_filter_pred(wanted, i);
        assert(kept.contains(kept[i]));
        lineage(target).lemma_filter_contains_rev(wanted, kept[i]);
    }
}

/// What a copy writes for an item has the names of the target and then those of the item,
/// and goes through links unless the item is one. A single file is written at the target
/// itself.
pub proof fn items_are_written_below_the_target(
    target: Seq<char>,
    item: SourceItem,
    kind: FileKind,
)
    requires
        !absolute(item.relative@),
    ensures
        names(written_item(target, item).path) == names(target) + names(item.relative@),
        written_item(target, item).through_links <==> !(item.kind is Symlink),
        copied_to(target, CopiedSource::Single(kind)) == seq![
            WrittenModel { path: target, through_links: !(kind is Symlink) },
        ],
{
    crate::path::children_have_the_names_above(target, item.relative@);
}

/// Every path on the way to a target that lies below the root and was not there is made.
pub proof fn missing_paths_are_made(
    root: Seq<char>,
    present: Seq<Seq<char>>,
    target: Seq<char>,
    i: int,
)
    requires
        0 <= i < lineage(target).len(),
        begins(lineage(target)[i], root + "/"@),
        !present.contains(lineage(target)[i]),
    ensures
        made_for(root, present, target).contains(
            (WrittenModel { path: lineage(target)[i], through_links: true }),
        ),
{
    let made = |path: Seq<char>| is_made(root, present, path);
    let way = lineage(target);
    way.lemma_filter_contains(made, i);
    let k = way.filter(made).index_of(way[i]);
    assert(made_for(root, present, target)[k] == WrittenModel {
        path: way[i],
        through_links: true,
    });
}

} // verus!
