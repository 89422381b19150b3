//! The stages of a Dockerfile: grouping, the target, and build arguments.
use crate::instruction::{Instruction, InstructionModel};
use crate::text::{copy_option, glue3, same_text};
use crate::text_map::StringMap;
use vstd::prelude::*;

verus! {

/// One build stage: a base image and the instructions on top of it.
#[derive(Debug)]
pub struct StageSpec {
    pub name: Option<String>,
    pub base_image: String,
    pub instructions: Vec<Instruction>,
}

/// A [`StageSpec`] as a mathematical value.
#[verifier::ext_equal]
pub struct StageModel {
    pub name: Option<Seq<char>>,
    pub base_image: Seq<char>,
    pub instructions: Seq<InstructionModel>,
}

impl DeepView for StageSpec {
    type V = StageModel;

    open spec fn deep_view(&self) -> StageModel {
        StageModel {
            name: self.name.deep_view(),
            base_image: self.base_image@,
            instructions: self.instructions.deep_view(),
        }
    }
}

impl StageSpec {
    /// Whether the stage starts from nothing.
    pub fn is_scratch(&self) -> (found: bool)
        ensures
            found == (self.base_image@ == "scratch"@),
    {
        same_text(&self.base_image, "scratch")
    }
}

// ---------------------------------------------------------------------------
// Grouping
// ---------------------------------------------------------------------------
/// The place of the first FROM at or after `at`, or the length.
pub open spec fn next_from(all: Seq<InstructionModel>, at: int) -> int
    decreases all.len() - at,
{
    if at >= all.len() {
        all.len() as int
    } else if all[at] is From {
        at
    } else {
        next_from(all, at + 1)
    }
}

/// The first FROM is a FROM, and none stands before it.
pub proof fn lemma_next_from(all: Seq<InstructionModel>, at: int)
    requires
        0 <= at <= all.len(),
    ensures
        at <= next_from(all, at) <= all.len(),
        next_from(all, at) < all.len() ==> all[next_from(all, at)] is From,
        forall|i: int| at <= i < next_from(all, at) ==> !(#[trigger] all[i] is From),
    decreases all.len() - at,
{
    if at < all.len() && !(all[at] is From) {
        lemma_next_from(all, at + 1);
    }
}

/// The stages from a FROM at `at` on: each FROM with what follows it up to the next.
pub open spec fn stages_from(all: Seq<InstructionModel>, at: int) -> Seq<StageModel>
    decreases all.len() - at,
{
    if 0 <= at < all.len() && all[at] is From {
        let end = next_from(all, at + 1);
        proof {
            lemma_next_from(all, at + 1);
        }
        seq![
            StageModel {
                name: all[at]->From_alias,
                base_image: all[at]->From_image,
                instructions: all.subrange(at + 1, end),
            },
        ] + stages_from(all, end)
    } else {
        seq![]
    }
}

/// The stages of a Dockerfile.
pub open spec fn grouped(all: Seq<InstructionModel>) -> Result<Seq<StageModel>, Seq<char>> {
    if all.len() == 0 {
        Err("Dockerfile does not define any build stage"@)
    } else if !(all[0] is From) {
        Err("Dockerfile must begin with FROM"@)
    } else {
        Ok(stages_from(all, 0))
    }
}

/// The stages of a Dockerfile: each FROM opens one, and what follows belongs to it.
pub fn group_stages(instructions: &Vec<Instruction>) -> (result: Result<Vec<StageSpec>, String>)
    ensures
        crate::text::outcome(result) == grouped(instructions.deep_view()),
{
    let ghost all = instructions.deep_view();
    if instructions.len() == 0 {
        return Err("Dockerfile does not define any build stage".to_string());
    }
    assert(all[0] == instructions@[0].deep_view());
    match &instructions[0] {
        Instruction::From { .. } => {},
        _ => {
            return Err("Dockerfile must begin with FROM".to_string());
        },
    }
    let mut stages: Vec<StageSpec> = Vec::new();
    let mut at: usize = 0;
    assert(stages.deep_view() + stages_from(all, 0) =~= stages_from(all, 0));
    while at < instructions.len()
        invariant
            at <= instructions@.len(),
            instructions.deep_view() == all,
            at < all.len() ==> all[at as int] is From,
            stages.deep_view() + stages_from(all, at as int) == stages_from(all, 0),
        decreases instructions@.len() - at,
    {
        let ghost before = stages.deep_view();
        let ghost start = at as int;
        assert(all[at as int] == instructions@[at as int].deep_view());
        let mut inner: Vec<Instruction> = Vec::new();
        let (name, base_image) = match &instructions[at] {
            Instruction::From { image, alias } => (copy_option(alias), image.clone()),
            _ => {
                assert(false);
                (None, String::new())
            },
        };
        at = at + 1;
        let mut in_stage = true;
        assert(inner.deep_view() =~= all.subrange(start + 1, at as int));
        while at < instructions.len() && in_stage
            invariant
                0 <= start < at <= instructions@.len(),
                instructions.deep_view() == all,
                inner.deep_view() == all.subrange(start + 1, at as int),
                next_from(all, start + 1) == next_from(all, at as int),
                !in_stage ==> at < all.len() && all[at as int] is From,
            decreases instructions@.len() - at + if in_stage { 1int } else { 0 },
        {
            let ghost gathered = inner.deep_view();
            let ghost current = all[at as int];
            assert(current == instructions@[at as int].deep_view());
            let instruction = &instructions[at];
            match instruction {
                Instruction::From { .. } => {
                    in_stage = false;
                },
                _ => {
                    inner.push(instruction.clone());
                    proof {
                        assert(inner.deep_view() =~= gathered.push(current));
                        assert(all.subrange(start + 1, at + 1) =~= all.subrange(
                            start + 1,
                            at as int,
                        ).push(current));
                    }
                    at = at + 1;
                },
            }
        }
        let stage = StageSpec { name, base_image, instructions: inner };
        stages.push(stage);
        proof {
            assert(stages.deep_view() =~= before.push(stage.deep_view()));
            let rest = stages_from(all, at as int);
            assert(before + (seq![stage.deep_view()] + rest) =~= before.push(stage.deep_view())
                + rest);
        }
    }
    assert(stages.deep_view() + seq![] =~= stages.deep_view());
    Ok(stages)
}

/// The instructions of a stage with the FROM that opens it.
pub open spec fn ungrouped(stage: StageModel) -> Seq<InstructionModel> {
    seq![InstructionModel::From { image: stage.base_image, alias: stage.name }]
        + stage.instructions
}

/// Grouping loses and reorders nothing: the stages in a row, each with its FROM, are
/// the instructions.
pub proof fn grouping_keeps_instructions(all: Seq<InstructionModel>)
    ensures
        grouped(all) matches Ok(stages) ==> stages.map_values(
            |stage: StageModel| ungrouped(stage),
        ).flatten() == all,
{
    if grouped(all) is Ok {
        lemma_ungrouped_from(all, 0);
        assert(all.skip(0) =~= all);
    }
}

proof fn lemma_ungrouped_from(all: Seq<InstructionModel>, at: int)
    requires
        0 <= at <= all.len(),
        at < all.len() ==> all[at] is From,
    ensures
        stages_from(all, at).map_values(|stage: StageModel| ungrouped(stage)).flatten()
            == all.skip(at),
    decreases all.len() - at,
{
    let f = |stage: StageModel| ungrouped(stage);
    if at < all.len() {
        let end = next_from(all, at + 1);
        lemma_next_from(all, at + 1);
        lemma_ungrouped_from(all, end);
        let stages = stages_from(all, at);
        let rest = stages_from(all, end);
        let first = stages[0];
        assert(stages.map_values(f) =~= seq![f(first)] + rest.map_values(f));
        assert(stages.map_values(f).drop_first() =~= rest.map_values(f));
        assert(ungrouped(first) =~= all.subrange(at, end));
        assert(all.skip(at) =~= all.subrange(at, end) + all.skip(end));
    } else {
        assert(stages_from(all, at).map_values(f) =~= seq![]);
        assert(all.skip(at) =~= seq![]);
    }
}

/// No stage holds a FROM among its instructions, and there is at least one stage.
pub proof fn stages_hold_no_from(all: Seq<InstructionModel>)
    ensures
        grouped(all) matches Ok(stages) ==> stages.len() > 0 && forall|i: int, j: int|
            0 <= i < stages.len() && 0 <= j < stages[i].instructions.len() ==> !(
            #[trigger] stages[i].instructions[j] is From),
{
    if grouped(all) is Ok {
        lemma_next_from(all, 1);
        lemma_no_from(all, 0);
    }
}

proof fn lemma_no_from(all: Seq<InstructionModel>, at: int)
    requires
        0 <= at <= all.len(),
    ensures
        forall|i: int, j: int|
            0 <= i < stages_from(all, at).len() && 0 <= j < stages_from(
                all,
                at,
            )[i].instructions.len() ==> !(#[trigger] stages_from(all, at)[i].instructions[j] is From),
    decreases all.len() - at,
{
    if at < all.len() && all[at] is From {
        let end = next_from(all, at + 1);
        lemma_next_from(all, at + 1);
        lemma_no_from(all, end);
        let stages = stages_from(all, at);
        let rest = stages_from(all, end);
        assert forall|i: int, j: int|
            0 <= i < stages.len() && 0 <= j < stages[i].instructions.len() implies !(
        #[trigger] stages[i].instructions[j] is From) by {
            if i > 0 {
                assert(stages[i] == rest[i - 1]);
                assert(!(rest[i - 1].instructions[j] is From));
            } else {
                assert(stages[0].instructions[j] == all[at + 1 + j]);
            }
        }
    }
}

// ---------------------------------------------------------------------------
// The target stage
// ---------------------------------------------------------------------------
/// The place of the first stage of this name at or after `at`, or the length.
pub open spec fn stage_named(stages: Seq<StageModel>, name: Seq<char>, at: int) -> int
    decreases stages.len() - at,
{
    if at >= stages.len() {
        stages.len() as int
    } else if stages[at].name == Some(name) {
        at
    } else {
        stage_named(stages, name, at + 1)
    }
}

/// The stage that a build ends with: the named one, or the last.
pub open spec fn target_index(stages: Seq<StageModel>, target: Option<Seq<char>>) -> Result<
    int,
    Seq<char>,
> {
    match target {
        None => Ok(
            if stages.len() > 0 {
                stages.len() - 1
            } else {
                0
            },
        ),
        Some(name) => if stage_named(stages, name, 0) < stages.len() {
            Ok(stage_named(stages, name, 0))
        } else {
            Err("Target stage '"@ + name + "' not found in Dockerfile"@)
        },
    }
}

/// Whether an optional name is this one.
pub(crate) fn is_named(name: &Option<String>, wanted: &str) -> (same: bool)
    ensures
        same == (name.deep_view() == Some(wanted@)),
{
    match name {
        Some(text) => same_text(text, wanted),
        None => false,
    }
}

/// The stage that a build ends with: the named one, or the last.
pub fn resolve_target_stage_index(stages: &Vec<StageSpec>, target: Option<&str>) -> (result: Result<
    usize,
    String,
>)
    ensures
        match target_index(stages.deep_view(), target.deep_view()) {
            Ok(at) => result matches Ok(found) && found == at,
            Err(text) => result matches Err(message) && message@ == text,
        },
{
    match target {
        None => Ok(
            if stages.len() > 0 {
                stages.len() - 1
            } else {
                0
            },
        ),
        Some(name) => {
            let ghost all = stages.deep_view();
            let mut at: usize = 0;
            while at < stages.len()
                invariant
                    at <= stages@.len(),
                    stages.deep_view() == all,
                    target.deep_view() == Some(name@),
                    stage_named(all, name@, 0) == stage_named(all, name@, at as int),
                decreases stages@.len() - at,
            {
                assert(all[at as int] == stages@[at as int].deep_view());
                if is_named(&stages[at].name, name) {
                    return Ok(at);
                }
                at = at + 1;
            }
            Err(glue3("Target stage '", name, "' not found in Dockerfile"))
        },
    }
}

/// A target found is a stage, and where it was named it has that name and no stage
/// before it has.
pub proof fn target_is_a_stage(stages: Seq<StageModel>, target: Option<Seq<char>>)
    requires
        stages.len() > 0,
    ensures
        target_index(stages, target) matches Ok(at) ==> 0 <= at < stages.len() && (
        target matches Some(name) ==> stages[at].name == Some(name) && forall|i: int|
            0 <= i < at ==> #[trigger] stages[i].name != Some(name)),
{
    if let Some(name) = target {
        lemma_stage_named(stages, name, 0);
    }
}

proof fn lemma_stage_named(stages: Seq<StageModel>, name: Seq<char>, at: int)
    requires
        0 <= at <= stages.len(),
    ensures
        at <= stage_named(stages, name, at) <= stages.len(),
        stage_named(stages, name, at) < stages.len() ==> stages[stage_named(
            stages,
            name,
            at,
        )].name == Some(name),
        forall|i: int|
            at <= i < stage_named(stages, name, at) ==> #[trigger] stages[i].name != Some(name),
    decreases stages.len() - at,
{
    if at < stages.len() && stages[at].name != Some(name) {
        lemma_stage_named(stages, name, at + 1);
    }
}

// ---------------------------------------------------------------------------
// Build arguments
// ---------------------------------------------------------------------------
/// The arguments with those that the first `count` instructions declare: an argument
/// that has a value keeps it.
pub open spec fn with_declared(
    args: Map<Seq<char>, Seq<char>>,
    instructions: Seq<InstructionModel>,
    count: int,
) -> Map<Seq<char>, Seq<char>>
    decreases count,
{
    if count <= 0 {
        args
    } else {
        let known = with_declared(args, instructions, count - 1);
        match instructions[count - 1] {
            InstructionModel::Arg { name, default } => if known.contains_key(name) {
                known
            } else {
                known.insert(
                    name,
                    match default {
                        Some(value) => value,
                        None => seq![],
                    },
                )
            },
            _ => known,
        }
    }
}

/// The arguments with those that the first `count` stages declare.
pub open spec fn stage_args(
    args: Map<Seq<char>, Seq<char>>,
    stages: Seq<StageModel>,
    count: int,
) -> Map<Seq<char>, Seq<char>>
    decreases count,
{
    if count <= 0 {
        args
    } else {
        let declared = stages[count - 1].instructions;
        with_declared(
            stage_args(args, stages, count - 1),
            declared,
            declared.len() as int,
        )
    }
}

/// How many stages count for the arguments of stage `current`.
pub open spec fn stages_through(stages: Seq<StageModel>, current: int) -> int {
    if current + 1 < stages.len() {
        current + 1
    } else {
        stages.len() as int
    }
}

/// The build arguments that hold in a stage: those given, and those that it and the
/// stages before it declare.
pub fn collect_stage_build_args(
    stages: &Vec<StageSpec>,
    build_args: &StringMap,
    current_stage: usize,
) -> (values: StringMap)
    ensures
        values.deep_view() == stage_args(
            build_args.deep_view(),
            stages.deep_view(),
            stages_through(stages.deep_view(), current_stage as int),
        ),
{
    let ghost all = stages.deep_view();
    let ghost given = build_args.deep_view();
    let mut values = build_args.clone();
    let mut at: usize = 0;
    while at < stages.len() && at <= current_stage
        invariant
            at <= stages@.len(),
            at <= current_stage + 1,
            stages.deep_view() == all,
            values.deep_view() == stage_args(given, all, at as int),
        decreases stages@.len() - at,
    {
        let ghost start = values.deep_view();
        let ghost declared = all[at as int].instructions;
        let instructions = &stages[at].instructions;
        assert(all[at as int] == stages@[at as int].deep_view());
        let mut next: usize = 0;
        while next < instructions.len()
            invariant
                next <= instructions@.len(),
                instructions.deep_view() == declared,
                values.deep_view() == with_declared(start, declared, next as int),
            decreases instructions@.len() - next,
        {
            assert(declared[next as int] == instructions@[next as int].deep_view());
            let ghost before = values.deep_view();
            match &instructions[next] {
                Instruction::Arg { name, default } => {
                    if !values.contains_key(name) {
                        let value = match default {
                            Some(text) => text.clone(),
                            None => String::new(),
                        };
                        assert(default is None ==> value@ =~= seq![]);
                        values.insert(name.clone(), value);
                        assert(values.deep_view() =~= before.insert(name@, value@));
                    }
                },
                _ => {},
            }
            next = next + 1;
        }
        at = at + 1;
    }
    values
}

/// A build argument that was given keeps its value in every stage.
pub proof fn given_arguments_win(
    args: Map<Seq<char>, Seq<char>>,
    stages: Seq<StageModel>,
    count: int,
    key: Seq<char>,
)
    requires
        args.contains_key(key),
    ensures
        stage_args(args, stages, count).contains_key(key),
        stage_args(args, stages, count)[key] == args[key],
    decreases count,
{
    if count > 0 {
        given_arguments_win(args, stages, count - 1, key);
        let declared = stages[count - 1].instructions;
        lemma_declared_keeps(
            stage_args(args, stages, count - 1),
            declared,
            declared.len() as int,
            key,
        );
    }
}

proof fn lemma_declared_keeps(
    args: Map<Seq<char>, Seq<char>>,
    instructions: Seq<InstructionModel>,
    count: int,
    key: Seq<char>,
)
    requires
        args.contains_key(key),
    ensures
        with_declared(args, instructions, count).contains_key(key),
        with_declared(args, instructions, count)[key] == args[key],
    decreases count,
{
    if count > 0 {
        lemma_declared_keeps(args, instructions, count - 1, key);
    }
}

/// Every argument that a stage declares has a value in that stage and in all later
/// ones.
pub proof fn declared_arguments_are_known(
    args: Map<Seq<char>, Seq<char>>,
    stages: Seq<StageModel>,
    count: int,
    i: int,
    j: int,
)
    requires
        0 <= i < count <= stages.len(),
        0 <= j < stages[i].instructions.len(),
        stages[i].instructions[j] is Arg,
    ensures
        stage_args(args, stages, count).contains_key(stages[i].instructions[j]->Arg_name),
    decreases count,
{
    let key = stages[i].instructions[j]->Arg_name;
    let declared = stages[count - 1].instructions;
    let before = stage_args(args, stages, count - 1);
    if i < count - 1 {
        declared_arguments_are_known(args, stages, count - 1, i, j);
        lemma_declared_keeps(before, declared, declared.len() as int, key);
    } else {
        lemma_declared_known(before, declared, declared.len() as int, j);
    }
}

proof fn lemma_declared_known(
    args: Map<Seq<char>, Seq<char>>,
    instructions: Seq<InstructionModel>,
    count: int,
    j: int,
)
    requires
        0 <= j < count <= instructions.len(),
        instructions[j] is Arg,
    ensures
        with_declared(args, instructions, count).contains_key(instructions[j]->Arg_name),
    decreases count,
{
    if j < count - 1 {
        lemma_declared_known(args, instructions, count - 1, j);
    }
}

/// A Dockerfile has stages exactly where it begins with a FROM, and the first of them is of
/// that FROM's image and name.
pub proof fn dockerfiles_begin_with_a_stage(all: Seq<InstructionModel>)
    ensures
        grouped(all) is Ok <==> all.len() > 0 && all[0] is From,
        grouped(all) matches Ok(stages) ==> (all[0] matches InstructionModel::From { image, alias }
            && stages[0].base_image == image && stages[0].name == alias),
{
    if all.len() > 0 && all[0] is From {
        lemma_next_from(all, 1);
    }
}

/// A build ends with its last stage unless a target is named; a named one is found exactly
/// where a stage has that name, and it is then the first of that name.
pub proof fn builds_end_with_their_target(stages: Seq<StageModel>, name: Seq<char>, at: int)
    requires
        stages.len() > 0,
        0 <= at <= stages.len(),
        at < stages.len() ==> stages[at].name == Some(name),
        forall|i: int| 0 <= i < at ==> #[trigger] stages[i].name != Some(name),
    ensures
        target_index(stages, None) == Ok::<int, Seq<char>>(stages.len() - 1),
        at < stages.len() ==> target_index(stages, Some(name)) == Ok::<int, Seq<char>>(at),
        at == stages.len() ==> target_index(stages, Some(name)) is Err,
{
    lemma_named_at(stages, name, 0, at);
}

proof fn lemma_named_at(stages: Seq<StageModel>, name: Seq<char>, from: int, at: int)
    requires
        0 <= from <= at <= stages.len(),
        at < stages.len() ==> stages[at].name == Some(name),
        forall|i: int| from <= i < at ==> #[trigger] stages[i].name != Some(name),
    ensures
        stage_named(stages, name, from) == at,
    decreases at - from,
{
    if from < at {
        assert(stages[from].name != Some(name));
        lemma_named_at(stages, name, from + 1, at);
    }
}

/// An instruction declares the argument.
pub open spec fn declares(instruction: InstructionModel, key: Seq<char>) -> bool {
    instruction matches InstructionModel::Arg { name, .. } && name == key
}

/// An argument that was not given has the default of its first declaration, and is empty
/// where that has none.
pub proof fn first_declarations_count(
    args: Map<Seq<char>, Seq<char>>,
    stages: Seq<StageModel>,
    count: int,
    i: int,
    j: int,
    key: Seq<char>,
)
    requires
        !args.contains_key(key),
        0 <= i < count <= stages.len(),
        0 <= j < stages[i].instructions.len(),
        declares(stages[i].instructions[j], key),
        forall|k: int| 0 <= k < j ==> !declares(#[trigger] stages[i].instructions[k], key),
        forall|h: int, k: int|
            0 <= h < i && 0 <= k < stages[h].instructions.len() ==> !declares(
                #[trigger] stages[h].instructions[k],
                key,
            ),
    ensures
        stage_args(args, stages, count).contains_key(key),
        stage_args(args, stages, count)[key] == match stages[i].instructions[j]->Arg_default {
            Some(value) => value,
            None => seq![],
        },
    decreases count,
{
    let declared = stages[count - 1].instructions;
    if i < count - 1 {
        first_declarations_count(args, stages, count - 1, i, j, key);
        lemma_known_stays(
            stage_args(args, stages, count - 1),
            declared,
            0,
            declared.len() as int,
            key,
        );
    } else {
        let before = stage_args(args, stages, i);
        undeclared_arguments_are_unknown(args, stages, i, key);
        lemma_undeclared_stays_unknown(before, declared, j, key);
        lemma_known_stays(before, declared, j + 1, declared.len() as int, key);
    }
}

proof fn lemma_known_stays(
    args: Map<Seq<char>, Seq<char>>,
    instructions: Seq<InstructionModel>,
    from: int,
    count: int,
    key: Seq<char>,
)
    requires
        0 <= from <= count <= instructions.len(),
        with_declared(args, instructions, from).contains_key(key),
    ensures
        with_declared(args, instructions, count).contains_key(key),
        with_declared(args, instructions, count)[key] == with_declared(
            args,
            instructions,
            from,
        )[key],
    decreases count,
{
    if from < count {
        lemma_known_stays(args, instructions, from, count - 1, key);
    }
}

proof fn lemma_undeclared_stays_unknown(
    args: Map<Seq<char>, Seq<char>>,
    instructions: Seq<InstructionModel>,
    count: int,
    key: Seq<char>,
)
    requires
        0 <= count <= instructions.len(),
        !args.contains_key(key),
        forall|k: int| 0 <= k < count ==> !declares(#[trigger] instructions[k], key),
    ensures
        !with_declared(args, instructions, count).contains_key(key),
    decreases count,
{
    if count > 0 {
        lemma_undeclared_stays_unknown(args, instructions, count - 1, key);
        assert(!declares(instructions[count - 1], key));
    }
}

/// An argument that was neither given nor declared has no value.
pub proof fn undeclared_arguments_are_unknown(
    args: Map<Seq<char>, Seq<char>>,
    stages: Seq<StageModel>,
    count: int,
    key: Seq<char>,
)
    requires
        0 <= count <= stages.len(),
        !args.contains_key(key),
        forall|h: int, k: int|
            0 <= h < count && 0 <= k < stages[h].instructions.len() ==> !declares(
                #[trigger] stages[h].instructions[k],
                key,
            ),
    ensures
        !stage_args(args, stages, count).contains_key(key),
    decreases count,
{
    if count > 0 {
        undeclared_arguments_are_unknown(args, stages, count - 1, key);
        let declared = stages[count - 1].instructions;
        assert forall|k: int| 0 <= k < declared.len() implies !declares(
            #[trigger] declared[k],
            key,
        ) by {
            assert(!declares(stages[count - 1].instructions[k], key));
        }
        lemma_undeclared_stays_unknown(
            stage_args(args, stages, count - 1),
            declared,
            declared.len() as int,
            key,
        );
    }
}

/// The arguments of a stage are those of the stages up to it and of none after it.
pub proof fn arguments_are_those_up_to_the_stage(stages: Seq<StageModel>, current: int)
    requires
        0 <= current < stages.len(),
    ensures
        stages_through(stages, current) == current + 1,
{
}

} // verus!
