//! COPY and ADD: where the sources are looked for and where they go.
use crate::instruction::{CopyInstruction, CopyModel};
use crate::interpolation::{interpolate, resolved};
use crate::number::{parse_usize, read_decimal};
use crate::path::{absolute, climbs, destination_in, extension, extension_of, file_name};
use crate::path::{file_name_of, host_path, host_path_for_container_path, invalid_container_path};
use crate::path::{join_path, normalize_relative_path, path_joined, relative_path};
use crate::path::{is_name, is_prefix, names, relative_path_is_inside};
use crate::path::resolve_container_destination;
use crate::stages::is_named;
use crate::text::{contains_char, ends, ends_with, eq_ignore_ascii_case, glue, glue3, lowercase};
use crate::text::{outcome, trim_start_matches, without_leading};
use crate::text_map::StringMap;
use vstd::prelude::*;

verus! {

// ---------------------------------------------------------------------------
// Plans
// ---------------------------------------------------------------------------
/// The root file system that an earlier stage left behind.
pub struct StageRoot {
    pub name: Option<String>,
    pub rootfs: String,
}

/// A [`StageRoot`] as a mathematical value.
#[verifier::ext_equal]
pub struct StageRootModel {
    pub name: Option<Seq<char>>,
    pub rootfs: Seq<char>,
}

impl DeepView for StageRoot {
    type V = StageRootModel;

    open spec fn deep_view(&self) -> StageRootModel {
        StageRootModel { name: self.name.deep_view(), rootfs: self.rootfs@ }
    }
}

/// Where a COPY or ADD takes its sources from and puts them.
pub struct CopyPlan {
    /// The destination inside the container.
    pub destination: String,
    /// The destination as the host sees it.
    pub destination_host: String,
    /// The directory that sources are looked for in.
    pub source_root: String,
    /// That directory is the root file system of an earlier stage.
    pub source_is_stage: bool,
    /// The sources with their variables replaced.
    pub sources: Vec<String>,
    /// There is more than one source, so the destination is a directory.
    pub multiple: bool,
}

/// A [`CopyPlan`] as a mathematical value.
#[verifier::ext_equal]
pub struct CopyPlanModel {
    pub destination: Seq<char>,
    pub destination_host: Seq<char>,
    pub source_root: Seq<char>,
    pub source_is_stage: bool,
    pub sources: Seq<Seq<char>>,
    pub multiple: bool,
}

impl DeepView for CopyPlan {
    type V = CopyPlanModel;

    open spec fn deep_view(&self) -> CopyPlanModel {
        CopyPlanModel {
            destination: self.destination@,
            destination_host: self.destination_host@,
            source_root: self.source_root@,
            source_is_stage: self.source_is_stage,
            sources: self.sources.deep_view(),
            multiple: self.multiple,
        }
    }
}

/// The place of the first stage of this name at or after `at`, or the length.
pub open spec fn root_named(roots: Seq<StageRootModel>, name: Seq<char>, at: int) -> int
    decreases roots.len() - at,
{
    if at >= roots.len() {
        roots.len() as int
    } else if roots[at].name == Some(name) {
        at
    } else {
        root_named(roots, name, at + 1)
    }
}

/// The completed stage that `from` refers to: by its name, else by its number.
pub open spec fn referenced_stage(roots: Seq<StageRootModel>, from: Seq<char>) -> Option<int> {
    let named = root_named(roots, from, 0);
    if named < roots.len() {
        Some(named)
    } else {
        match read_decimal(from, usize::MAX as nat) {
            Some(number) => if number < roots.len() {
                Some(number as int)
            } else {
                None
            },
            None => None,
        }
    }
}

/// The completed stage that `from` refers to: by its name, else by its number.
pub fn find_stage(roots: &Vec<StageRoot>, from: &str) -> (found: Option<usize>)
    ensures
        match referenced_stage(roots.deep_view(), from@) {
            Some(at) => found matches Some(i) && i == at && i < roots@.len(),
            None => found is None,
        },
{
    let ghost all = roots.deep_view();
    let mut at: usize = 0;
    while at < roots.len()
        invariant
            at <= roots@.len(),
            roots.deep_view() == all,
            root_named(all, from@, 0) == root_named(all, from@, at as int),
        decreases roots@.len() - at,
    {
        assert(all[at as int] == roots@[at as int].deep_view());
        if is_named(&roots[at].name, from) {
            return Some(at);
        }
        at = at + 1;
    }
    match parse_usize(from) {
        Some(number) => if number < roots.len() {
            Some(number)
        } else {
            None
        },
        None => None,
    }
}

/// The directory that a COPY takes its sources from.
pub open spec fn source_root_of(
    from: Option<Seq<char>>,
    roots: Seq<StageRootModel>,
    context_root: Seq<char>,
) -> Result<(Seq<char>, bool), Seq<char>> {
    match from {
        None => Ok((context_root, false)),
        Some(name) => match referenced_stage(roots, name) {
            Some(at) => Ok((roots[at].rootfs, true)),
            None => Err(
                "COPY --from='"@ + name + "' references an unknown completed stage"@,
            ),
        },
    }
}

/// The sources with their variables replaced.
pub open spec fn resolved_sources(
    sources: Seq<Seq<char>>,
    env: Map<Seq<char>, Seq<char>>,
    args: Map<Seq<char>, Seq<char>>,
) -> Seq<Seq<char>> {
    sources.map_values(|source: Seq<char>| resolved(source, env, args))
}

/// The sources with their variables replaced.
fn resolve_sources(sources: &Vec<String>, env: &StringMap, args: &StringMap) -> (result: Vec<
    String,
>)
    ensures
        result.deep_view() == resolved_sources(
            sources.deep_view(),
            env.deep_view(),
            args.deep_view(),
        ),
{
    let ghost all = resolved_sources(sources.deep_view(), env.deep_view(), args.deep_view());
    let mut result: Vec<String> = Vec::new();
    let mut at: usize = 0;
    while at < sources.len()
        invariant
            at <= sources@.len(),
            all == resolved_sources(sources.deep_view(), env.deep_view(), args.deep_view()),
            result.deep_view() == all.take(at as int),
        decreases sources@.len() - at,
    {
        let ghost before = result.deep_view();
        let source = interpolate(&sources[at], env, args);
        result.push(source);
        proof {
            assert(sources.deep_view()[at as int] == sources@[at as int]@);
            assert(result.deep_view() =~= before.push(source@));
            assert(all.take(at + 1) =~= all.take(at as int).push(all[at as int]));
        }
        at = at + 1;
    }
    assert(all.take(at as int) =~= all);
    result
}

/// The directories and variables that a COPY or ADD works with.
pub struct CopySetting {
    pub context_root: String,
    pub rootfs: String,
    pub workdir: String,
    pub environment: StringMap,
    pub build_args: StringMap,
}

/// The destination of a COPY or ADD inside the container.
pub open spec fn copy_target(copy: CopyModel, setting: CopySetting) -> Seq<char> {
    destination_in(
        setting.workdir@,
        resolved(
            copy.destination,
            setting.environment.deep_view(),
            setting.build_args.deep_view(),
        ),
    )
}

/// What a COPY does.
pub open spec fn planned_copy(
    copy: CopyModel,
    roots: Seq<StageRootModel>,
    setting: CopySetting,
) -> Result<CopyPlanModel, Seq<char>> {
    let destination = copy_target(copy, setting);
    match host_path(setting.rootfs@, destination) {
        None => Err(invalid_container_path(destination)),
        Some(destination_host) => match source_root_of(copy.from, roots, setting.context_root@) {
            Err(message) => Err(message),
            Ok((source_root, source_is_stage)) => Ok(
                CopyPlanModel {
                    destination,
                    destination_host,
                    source_root,
                    source_is_stage,
                    sources: resolved_sources(
                        copy.sources,
                        setting.environment.deep_view(),
                        setting.build_args.deep_view(),
                    ),
                    multiple: copy.sources.len() > 1,
                },
            ),
        },
    }
}

/// What a COPY does.
pub fn plan_copy(copy: &CopyInstruction, roots: &Vec<StageRoot>, setting: &CopySetting) -> (result:
    Result<CopyPlan, String>)
    ensures
        outcome(result) == planned_copy(copy.deep_view(), roots.deep_view(), *setting),
{
    let wanted = interpolate(&copy.destination, &setting.environment, &setting.build_args);
    let destination = resolve_container_destination(&setting.workdir, &wanted);
    let destination_host = match host_path_for_container_path(&setting.rootfs, &destination) {
        Ok(path) => path,
        Err(message) => {
            return Err(message);
        },
    };
    let (source_root, source_is_stage) = match &copy.from {
        None => (setting.context_root.clone(), false),
        Some(name) => match find_stage(roots, name) {
            Some(at) => {
                assert(roots.deep_view()[at as int] == roots@[at as int].deep_view());
                (roots[at].rootfs.clone(), true)
            },
            None => {
                return Err(
                    glue3(
                        "COPY --from='",
                        name,
                        "' references an unknown completed stage",
                    ),
                );
            },
        },
    };
    let sources = resolve_sources(&copy.sources, &setting.environment, &setting.build_args);
    let multiple = copy.sources.len() > 1;
    Ok(
        CopyPlan {
            destination,
            destination_host,
            source_root,
            source_is_stage,
            sources,
            multiple,
        },
    )
}

/// What an ADD does: it takes its sources from the build context.
pub open spec fn planned_add(copy: CopyModel, setting: CopySetting) -> Result<
    CopyPlanModel,
    Seq<char>,
> {
    planned_copy(CopyModel { from: None, ..copy }, seq![], setting)
}

/// What an ADD does: it takes its sources from the build context.
pub fn plan_add(copy: &CopyInstruction, setting: &CopySetting) -> (result: Result<
    CopyPlan,
    String,
>)
    ensures
        outcome(result) == planned_add(copy.deep_view(), *setting),
{
    let wanted = interpolate(&copy.destination, &setting.environment, &setting.build_args);
    let destination = resolve_container_destination(&setting.workdir, &wanted);
    let destination_host = match host_path_for_container_path(&setting.rootfs, &destination) {
        Ok(path) => path,
        Err(message) => {
            return Err(message);
        },
    };
    let sources = resolve_sources(&copy.sources, &setting.environment, &setting.build_args);
    let multiple = copy.sources.len() > 1;
    Ok(
        CopyPlan {
            destination,
            destination_host,
            source_root: setting.context_root.clone(),
            source_is_stage: false,
            sources,
            multiple,
        },
    )
}

/// A COPY or ADD never fails on its destination: only an unknown stage stops it.
pub proof fn only_unknown_stages_stop_a_copy(
    copy: CopyModel,
    roots: Seq<StageRootModel>,
    setting: CopySetting,
)
    ensures
        planned_copy(copy, roots, setting) is Err <==> copy.from is Some && referenced_stage(
            roots,
            copy.from->0,
        ) is None,
        planned_add(copy, setting) is Ok,
{
    let wanted = resolved(
        copy.destination,
        setting.environment.deep_view(),
        setting.build_args.deep_view(),
    );
    crate::path::destination_stays_inside(setting.rootfs@, setting.workdir@, wanted);
}

// ---------------------------------------------------------------------------
// Sources
// ---------------------------------------------------------------------------
/// Where the matches of one source are looked for.
#[derive(Debug)]
pub enum SourceLookup {
    /// Every path that the pattern matches.
    Pattern(String),
    /// This path, if it exists.
    Path(String),
}

/// A [`SourceLookup`] as a mathematical value.
#[verifier::ext_equal]
pub enum SourceLookupModel {
    Pattern(Seq<char>),
    Path(Seq<char>),
}

impl DeepView for SourceLookup {
    type V = SourceLookupModel;

    open spec fn deep_view(&self) -> SourceLookupModel {
        match self {
            SourceLookup::Pattern(text) => SourceLookupModel::Pattern(text@),
            SourceLookup::Path(text) => SourceLookupModel::Path(text@),
        }
    }
}

/// The source is a pattern.
pub open spec fn is_pattern(source: Seq<char>) -> bool {
    source.contains('*') || source.contains('?') || source.contains('[')
}

/// A source as a path below its root: one in a stage may be written from the root of
/// that stage.
pub open spec fn rooted(source: Seq<char>, stage_root: bool) -> Seq<char> {
    if stage_root {
        without_leading(source, '/')
    } else {
        source
    }
}

/// Where a source is looked for below the directory `base`.
pub open spec fn lookup_of(base: Seq<char>, source: Seq<char>, stage_root: bool) -> Result<
    SourceLookupModel,
    Seq<char>,
> {
    match relative_path(rooted(source, stage_root)) {
        None => Err("Source path '"@ + source + "' escapes the build context"@),
        Some(relative) => if is_pattern(source) {
            Ok(SourceLookupModel::Pattern(path_joined(base, relative)))
        } else if stage_root {
            match host_path(base, "/"@ + relative) {
                Some(path) => Ok(SourceLookupModel::Path(path)),
                None => Err(invalid_container_path("/"@ + relative)),
            }
        } else {
            Ok(SourceLookupModel::Path(path_joined(base, relative)))
        },
    }
}

/// Where a source is looked for below the directory `base`.
pub fn resolve_copy_matches(base: &str, source: &str, stage_root: bool) -> (result: Result<
    SourceLookup,
    String,
>)
    ensures
        outcome(result) == lookup_of(base@, source@, stage_root),
{
    let place = if stage_root {
        trim_start_matches(source, '/')
    } else {
        source.to_string()
    };
    let relative = match normalize_relative_path(&place) {
        Some(relative) => relative,
        None => {
            return Err(glue3("Source path '", source, "' escapes the build context"));
        },
    };
    if contains_char(source, '*') || contains_char(source, '?') || contains_char(source, '[') {
        return Ok(SourceLookup::Pattern(join_path(base, &relative)));
    }
    if stage_root {
        match host_path_for_container_path(base, &glue("/", &relative)) {
            Ok(path) => Ok(SourceLookup::Path(path)),
            Err(message) => Err(message),
        }
    } else {
        Ok(SourceLookup::Path(join_path(base, &relative)))
    }
}

/// A source is only ever looked for below its directory: at that directory with a
/// relative path below it that never climbs. Only a source that climbs is refused, or
/// one that is absolute and not in a stage.
pub proof fn sources_stay_inside(base: Seq<char>, source: Seq<char>, stage_root: bool)
    ensures
        lookup_of(base, source, stage_root) is Err <==> (absolute(source) && !stage_root)
            || climbs(rooted(source, stage_root)),
        lookup_of(base, source, stage_root) matches Ok(lookup) ==> exists|relative: Seq<char>|
            !absolute(relative) && !climbs(relative) && #[trigger] path_joined(base, relative)
                == match lookup {
                SourceLookupModel::Pattern(path) => path,
                SourceLookupModel::Path(path) => path,
            },
{
    let place = rooted(source, stage_root);
    relative_path_is_inside(place);
    if stage_root {
        lemma_leading_gone(source);
    }
    if let Some(relative) = relative_path(place) {
        reveal_strlit("/");
        assert(("/"@ + relative).skip(1) =~= relative);
        assert(without_leading("/"@ + relative, '/') == without_leading(relative, '/'));
        assert(without_leading(relative, '/') == relative);
        assert(host_path(base, "/"@ + relative) == Some(path_joined(base, relative)));
    }
}

/// Without its leading slashes a path is relative.
proof fn lemma_leading_gone(path: Seq<char>)
    ensures
        !absolute(without_leading(path, '/')),
    decreases path.len(),
{
    if path.len() > 0 && path[0] == '/' {
        lemma_leading_gone(path.skip(1));
    }
}

/// A source in a stage may be written from the root of the stage: it is the same as
/// without the leading slashes.
pub proof fn stage_sources_may_be_absolute(base: Seq<char>, source: Seq<char>)
    ensures
        match (lookup_of(base, "/"@ + source, true), lookup_of(base, source, true)) {
            (Ok(rooted), Ok(plain)) => rooted == plain,
            (Err(_), Err(_)) => true,
            _ => false,
        },
{
    reveal_strlit("/");
    let whole = "/"@ + source;
    assert(whole.skip(1) =~= source);
    assert(without_leading(whole, '/') == without_leading(source, '/'));
    assert(is_pattern(whole) == is_pattern(source)) by {
        assert forall|c: char| c != '/' implies #[trigger] whole.contains(c) == source.contains(
            c,
        ) by {
            if whole.contains(c) {
                let i = whole.index_of(c);
                assert(source[i - 1] == c);
            }
            if source.contains(c) {
                let i = source.index_of(c);
                assert(whole[i + 1] == c);
            }
        }
    }
}

/// The complaint about a source without a match. `keyword` is COPY or ADD.
pub fn source_not_found(keyword: &str, source: &str) -> (message: String)
    ensures
        message@ == keyword@ + " source '"@ + source@ + "' not found"@,
{
    glue3(&glue(keyword, " source '"), source, "' not found")
}

// ---------------------------------------------------------------------------
// Targets
// ---------------------------------------------------------------------------
/// Where a match goes: below the destination under its own name where either side
/// is a directory or there are several sources, else to the destination itself.
pub open spec fn target_of(
    source: Seq<char>,
    destination: Seq<char>,
    multi: bool,
    destination_is_dir: bool,
    source_is_dir: bool,
) -> Result<Seq<char>, Seq<char>> {
    if multi || destination_is_dir || source_is_dir {
        match file_name_of(source) {
            Some(name) => Ok(path_joined(destination, name)),
            None => Err("Unable to resolve destination name for '"@ + source + "'"@),
        }
    } else {
        Ok(destination)
    }
}

/// Where a match goes.
pub fn compute_copy_destination(
    source: &str,
    destination_host: &str,
    multi: bool,
    destination_is_dir: bool,
    source_is_dir: bool,
) -> (result: Result<String, String>)
    ensures
        outcome(result) == target_of(
            source@,
            destination_host@,
            multi,
            destination_is_dir,
            source_is_dir,
        ),
{
    if multi || destination_is_dir || source_is_dir {
        match file_name(source) {
            Some(name) => Ok(join_path(destination_host, &name)),
            None => Err(glue3("Unable to resolve destination name for '", source, "'")),
        }
    } else {
        Ok(destination_host.to_string())
    }
}

// ---------------------------------------------------------------------------
// Archives
// ---------------------------------------------------------------------------
/// The path names an archive that ADD unpacks.
pub open spec fn names_archive(path: Seq<char>) -> bool {
    match file_name_of(path) {
        Some(name) => ends(name, ".tar"@) || ends(name, ".tar.gz"@) || ends(name, ".tgz"@),
        None => false,
    }
}

/// Whether the path names an archive that ADD unpacks.
pub fn is_archive_path(path: &str) -> (found: bool)
    ensures
        found == names_archive(path@),
{
    match file_name(path) {
        Some(name) => ends_with(&name, ".tar") || ends_with(&name, ".tar.gz") || ends_with(
            &name,
            ".tgz",
        ),
        None => false,
    }
}

/// The archive is compressed.
pub open spec fn names_gzip(path: Seq<char>) -> bool {
    match extension_of(path) {
        Some(extension) => lowercase(extension) == lowercase("gz"@) || lowercase(extension)
            == lowercase("tgz"@),
        None => false,
    }
}

/// Whether the archive is compressed.
pub fn is_gzip_path(path: &str) -> (found: bool)
    ensures
        found == names_gzip(path@),
{
    match extension(path) {
        Some(suffix) => eq_ignore_ascii_case(&suffix, "gz") || eq_ignore_ascii_case(
            &suffix,
            "tgz",
        ),
        None => false,
    }
}

// ---------------------------------------------------------------------------
// Laws of plans
// ---------------------------------------------------------------------------
/// A COPY takes its sources from the build context, or from the stage that it names: the
/// first completed stage of that name, and where there is none the stage of that number.
/// An ADD always takes them from the build context.
pub proof fn copies_take_from_where_they_say(
    copy: CopyModel,
    roots: Seq<StageRootModel>,
    setting: CopySetting,
    at: int,
)
    requires
        copy.from is Some ==> 0 <= at <= roots.len() && (at < roots.len() ==> roots[at].name
            == copy.from) && forall|i: int| 0 <= i < at ==> #[trigger] roots[i].name != copy.from,
    ensures
        copy.from is None ==> (planned_copy(copy, roots, setting) matches Ok(plan)
            && plan.source_root == setting.context_root@ && !plan.source_is_stage),
        copy.from is Some && at < roots.len() ==> (planned_copy(copy, roots, setting) matches Ok(
            plan,
        ) && plan.source_root == roots[at].rootfs && plan.source_is_stage),
        copy.from is Some && at == roots.len() ==> match read_decimal(
            copy.from->0,
            usize::MAX as nat,
        ) {
            Some(number) => if number < roots.len() {
                planned_copy(copy, roots, setting) matches Ok(plan) && plan.source_root
                    == roots[number as int].rootfs && plan.source_is_stage
            } else {
                planned_copy(copy, roots, setting) is Err
            },
            None => planned_copy(copy, roots, setting) is Err,
        },
        planned_add(copy, setting) matches Ok(plan) && plan.source_root == setting.context_root@
            && !plan.source_is_stage,
{
    only_unknown_stages_stop_a_copy(copy, roots, setting);
    if let Some(name) = copy.from {
        lemma_root_at(roots, name, 0, at);
    }
}

proof fn lemma_root_at(roots: Seq<StageRootModel>, name: Seq<char>, from: int, at: int)
    requires
        0 <= from <= at <= roots.len(),
        at < roots.len() ==> roots[at].name == Some(name),
        forall|i: int| from <= i < at ==> #[trigger] roots[i].name != Some(name),
    ensures
        root_named(roots, name, from) == at,
    decreases at - from,
{
    if from < at {
        assert(roots[from].name != Some(name));
        lemma_root_at(roots, name, from + 1, at);
    }
}

/// A COPY goes where it says: its destination, from the root or from the working
/// directory, at its place under the root file system. It has each of its sources, in
/// their order and with their variables replaced; and so has an ADD.
pub proof fn copies_go_where_they_say(
    copy: CopyModel,
    roots: Seq<StageRootModel>,
    setting: CopySetting,
)
    ensures
        planned_copy(copy, roots, setting) matches Ok(plan) ==> is_copy_of(plan, copy, setting),
        planned_add(copy, setting) matches Ok(plan) ==> is_copy_of(plan, copy, setting),
{
    lemma_copy_goes(copy, roots, setting);
    lemma_copy_goes(CopyModel { from: None, ..copy }, seq![], setting);
}

/// The plan has the destination and the sources of the instruction.
pub open spec fn is_copy_of(plan: CopyPlanModel, copy: CopyModel, setting: CopySetting) -> bool {
    let env = setting.environment.deep_view();
    let args = setting.build_args.deep_view();
    let to = resolved(copy.destination, env, args);
    &&& absolute(plan.destination)
    &&& absolute(to) ==> names(plan.destination) == names(to)
    &&& !absolute(to) ==> names(plan.destination) == names(setting.workdir@) + names(to)
    &&& names(plan.destination_host) == names(setting.rootfs@) + names(plan.destination)
    &&& plan.sources.len() == copy.sources.len()
    &&& forall|i: int|
        0 <= i < plan.sources.len() ==> #[trigger] plan.sources[i] == resolved(
            copy.sources[i],
            env,
            args,
        )
    &&& plan.multiple == (copy.sources.len() >= 2)
}

proof fn lemma_copy_goes(copy: CopyModel, roots: Seq<StageRootModel>, setting: CopySetting)
    ensures
        planned_copy(copy, roots, setting) matches Ok(plan) ==> is_copy_of(plan, copy, setting),
{
    let env = setting.environment.deep_view();
    let args = setting.build_args.deep_view();
    let to = resolved(copy.destination, env, args);
    let destination = destination_in(setting.workdir@, to);
    crate::path::destinations_go_below_the_workdir(setting.workdir@, to);
    crate::path::places_have_the_names_of_their_paths(setting.rootfs@, destination);
}

/// A source is looked for below its directory, by its names; it is a pattern exactly where
/// it has a star, a question mark or a bracket.
pub proof fn sources_are_looked_for_by_name(base: Seq<char>, source: Seq<char>, stage_root: bool)
    ensures
        lookup_of(base, source, stage_root) matches Ok(lookup) ==> {
            let wild = source.contains('*') || source.contains('?') || source.contains('[');
            &&& lookup is Pattern <==> wild
            &&& lookup is Path <==> !wild
            &&& match lookup {
                SourceLookupModel::Pattern(path) => names(path) == names(base) + names(source),
                SourceLookupModel::Path(path) => names(path) == names(base) + names(source),
            }
        },
{
    reveal_strlit("/");
    let whole = rooted(source, stage_root);
    crate::path::lemma_leading_slashes(source);
    assert(names(whole) == names(source));
    if let Some(relative) = relative_path(whole) {
        relative_path_is_inside(whole);
        crate::path::children_have_the_names_above(base, relative);
        crate::path::lemma_rooted(relative);
        crate::path::places_have_the_names_of_their_paths(base, "/"@ + relative);
    }
}

/// A match goes below the destination, under its own name, where the destination or the
/// match is a directory or there are several sources; otherwise it goes to the destination
/// itself.
pub proof fn matches_keep_their_names(
    directory: Seq<char>,
    name: Seq<char>,
    destination: Seq<char>,
    multi: bool,
    destination_is_dir: bool,
    source_is_dir: bool,
)
    requires
        is_prefix(directory),
        is_name(name),
        !name.contains('/'),
    ensures
        multi || destination_is_dir || source_is_dir ==> target_of(
            path_joined(directory, name),
            destination,
            multi,
            destination_is_dir,
            source_is_dir,
        ) == Ok::<Seq<char>, Seq<char>>(path_joined(destination, name)),
        !multi && !destination_is_dir && !source_is_dir ==> target_of(
            path_joined(directory, name),
            destination,
            multi,
            destination_is_dir,
            source_is_dir,
        ) == Ok::<Seq<char>, Seq<char>>(destination),
{
    crate::path::joined_paths_come_apart(directory, name);
}

/// ADD unpacks a file by its name: one that ends in `.tar`, `.tar.gz` or `.tgz`, of which
/// the last two are compressed, and no other.
pub proof fn archives_go_by_their_names(directory: Seq<char>, name: Seq<char>)
    requires
        is_prefix(directory),
        is_name(name),
        !name.contains('/'),
    ensures
        names_archive(path_joined(directory, name)) <==> ends(name, ".tar"@) || ends(
            name,
            ".tar.gz"@,
        ) || ends(name, ".tgz"@),
        ends(name, ".tar.gz"@) || (ends(name, ".tgz"@) && name.len() > 4) ==> names_gzip(
            path_joined(directory, name),
        ),
        ends(name, ".tar"@) ==> !names_gzip(path_joined(directory, name)),
{
    crate::path::joined_paths_come_apart(directory, name);
    reveal_strlit(".tar");
    reveal_strlit(".tar.gz");
    reveal_strlit(".tgz");
    reveal_strlit("gz");
    reveal_strlit("tgz");
    let end = name.len() as int;
    if ends(name, ".tar.gz"@) {
        let tail = name.skip(end - 7);
        assert(name[end - 3] == tail[4] && name[end - 2] == tail[5] && name[end - 1] == tail[6]);
        assert(crate::path::last_dot(name, end) == end - 3) by {
            reveal_with_fuel(crate::path::last_dot, 4);
        }
        assert(name.skip(end - 2) =~= "gz"@);
    }
    if ends(name, ".tgz"@) && end > 4 {
        let tail = name.skip(end - 4);
        assert(name[end - 4] == tail[0] && name[end - 3] == tail[1] && name[end - 2] == tail[2]
            && name[end - 1] == tail[3]);
        assert(crate::path::last_dot(name, end) == end - 4) by {
            reveal_with_fuel(crate::path::last_dot, 5);
        }
        assert(name.skip(end - 3) =~= "tgz"@);
    }
    if ends(name, ".tar"@) {
        let tail = name.skip(end - 4);
        assert(name[end - 4] == tail[0] && name[end - 3] == tail[1] && name[end - 2] == tail[2]
            && name[end - 1] == tail[3]);
        assert(crate::path::last_dot(name, end) == end - 4) by {
            reveal_with_fuel(crate::path::last_dot, 5);
        }
        let rest = name.skip(end - 3);
        assert(rest[0] == 't' && rest[1] == 'a' && rest[2] == 'r');
        assert(lowercase(rest).len() == 3);
        assert(lowercase("gz"@).len() == 2);
        assert(lowercase(rest)[1] == 'a');
        assert(lowercase("tgz"@)[1] == 'g');
    }
}

} // verus!
