//! One build stage: what each instruction does to the image under construction.
use crate::build::layer::{BuiltLayer, LayerModel};
use crate::build::run::{command_words, exec_form_command, shell_form_command};
use crate::clock::now_rfc3339;
use crate::dockerfile::{json_strings, parse_json_strings};
use crate::environment::{env_map_to_vec, env_of, env_vec_to_map};
use crate::image::{ContainerConfigModel, Descriptor, DescriptorModel, EmptyObject, History};
use crate::image::{empty_config, plain_descriptor, HistoryModel, ImageConfigModel, ManifestModel};
use crate::image::{MediaType, OciContainerConfig, OciImageConfig, OciManifest, RootFs};
use crate::instruction::{Instruction, InstructionModel};
use crate::interpolation::{interpolate, resolved};
use crate::path::{destination_in, host_path, host_path_for_container_path};
use crate::path::{absolute, invalid_container_path, names, resolve_container_destination};
use crate::sequence::{lemma_filter_all, lemma_filter_empty, lemma_filter_next};
use crate::text::{copy_texts, glue, is_empty, outcome, starts_with};
use crate::text_map::{sorted_assignments, StringMap, TextMap};
use vstd::prelude::*;

verus! {

// ---------------------------------------------------------------------------
// State
// ---------------------------------------------------------------------------
/// The image under construction in a stage.
pub struct StageState {
    pub architecture: String,
    pub os: String,
    pub config: OciContainerConfig,
    pub layers: Vec<Descriptor>,
    pub diff_ids: Vec<String>,
    pub history: Vec<History>,
    pub environment: StringMap,
    pub build_args: StringMap,
    pub shell: Vec<String>,
    pub workdir: String,
}

/// A [`StageState`] as a mathematical value.
#[verifier::ext_equal]
pub struct StageData {
    pub architecture: Seq<char>,
    pub os: Seq<char>,
    pub config: ContainerConfigModel,
    pub layers: Seq<DescriptorModel>,
    pub diff_ids: Seq<Seq<char>>,
    pub history: Seq<HistoryModel>,
    pub environment: Map<Seq<char>, Seq<char>>,
    pub build_args: Map<Seq<char>, Seq<char>>,
    pub shell: Seq<Seq<char>>,
    pub workdir: Seq<char>,
}

impl DeepView for StageState {
    type V = StageData;

    open spec fn deep_view(&self) -> StageData {
        StageData {
            architecture: self.architecture@,
            os: self.os@,
            config: self.config.deep_view(),
            layers: self.layers.deep_view(),
            diff_ids: self.diff_ids.deep_view(),
            history: self.history.deep_view(),
            environment: self.environment.deep_view(),
            build_args: self.build_args.deep_view(),
            shell: self.shell.deep_view(),
            workdir: self.workdir@,
        }
    }
}

/// What a stage takes over from the image it starts from.
pub struct BaseImage {
    pub architecture: String,
    pub os: String,
    pub config: Option<OciContainerConfig>,
    pub diff_ids: Vec<String>,
    pub history: Option<Vec<History>>,
    pub layers: Vec<Descriptor>,
}

/// What a stage starts from without a base image.
pub open spec fn scratch_image() -> StageData {
    StageData {
        architecture: "amd64"@,
        os: "linux"@,
        config: empty_config(),
        layers: seq![],
        diff_ids: seq![],
        history: seq![],
        environment: Map::empty(),
        build_args: Map::empty(),
        shell: seq![],
        workdir: seq![],
    }
}

/// What a stage takes over from its base image.
pub open spec fn base_data(base: Option<BaseImage>) -> StageData {
    match base {
        None => scratch_image(),
        Some(image) => StageData {
            architecture: image.architecture@,
            os: image.os@,
            config: match image.config {
                Some(config) => config.deep_view(),
                None => empty_config(),
            },
            diff_ids: image.diff_ids.deep_view(),
            history: match image.history {
                Some(history) => history.deep_view(),
                None => seq![],
            },
            layers: image.layers.deep_view(),
            ..scratch_image()
        },
    }
}

/// The state at the start of a stage: environment, shell and working directory are
/// those of the base image's configuration.
pub open spec fn started(
    base: Option<BaseImage>,
    build_args: Map<Seq<char>, Seq<char>>,
) -> StageData {
    let data = base_data(base);
    StageData {
        environment: match data.config.env {
            Some(entries) => env_of(entries),
            None => Map::empty(),
        },
        build_args,
        shell: match data.config.shell {
            Some(words) => words,
            None => seq!["/bin/sh"@, "-c"@],
        },
        workdir: match data.config.working_dir {
            Some(path) => path,
            None => "/"@,
        },
        ..data
    }
}

// ---------------------------------------------------------------------------
// History
// ---------------------------------------------------------------------------
/// The record of one step.
pub open spec fn history_of(
    created: Seq<char>,
    created_by: Seq<char>,
    empty_layer: bool,
) -> HistoryModel {
    HistoryModel {
        created: Some(created),
        author: Some("qbuild"@),
        created_by: Some(created_by),
        comment: None,
        empty_layer: Some(empty_layer),
    }
}

/// The record of one step that was made at a given time.
pub fn history_entry_at(created: &str, created_by: &str, empty_layer: bool) -> (entry: History)
    ensures
        entry.deep_view() == history_of(created@, created_by@, empty_layer),
{
    History {
        created: Some(created.to_string()),
        author: Some("qbuild".to_string()),
        created_by: Some(created_by.to_string()),
        comment: None,
        empty_layer: Some(empty_layer),
    }
}

/// The record of one step that is made now.
pub fn history_entry(created_by: &str, empty_layer: bool) -> (entry: History)
    ensures
        exists|created: Seq<char>|
            entry.deep_view() == #[trigger] history_of(created, created_by@, empty_layer),
{
    let created = now_rfc3339();
    let entry = history_entry_at(&created, created_by, empty_layer);
    assert(entry.deep_view() == history_of(created@, created_by@, empty_layer));
    entry
}

// ---------------------------------------------------------------------------
// Steps
// ---------------------------------------------------------------------------
/// What has to happen outside before the stage goes on.
#[derive(Debug)]
pub enum StageAction {
    /// Nothing.
    Proceed,
    /// This directory has to exist.
    MakeDirectory(String),
    /// The command has to run, and its changes become a layer.
    Run,
    /// The sources have to be copied, and the paths written become a layer.
    Copy,
    /// The sources have to be added, and the changes become a layer.
    Add,
}

/// A [`StageAction`] as a mathematical value.
#[verifier::ext_equal]
pub enum StageActionModel {
    Proceed,
    MakeDirectory(Seq<char>),
    Run,
    Copy,
    Add,
}

impl DeepView for StageAction {
    type V = StageActionModel;

    open spec fn deep_view(&self) -> StageActionModel {
        match self {
            StageAction::Proceed => StageActionModel::Proceed,
            StageAction::MakeDirectory(path) => StageActionModel::MakeDirectory(path@),
            StageAction::Run => StageActionModel::Run,
            StageAction::Copy => StageActionModel::Copy,
            StageAction::Add => StageActionModel::Add,
        }
    }
}

/// The environment after the first `count` assignments, each resolved with those
/// before it.
pub open spec fn env_after(
    env: Map<Seq<char>, Seq<char>>,
    args: Map<Seq<char>, Seq<char>>,
    pairs: Seq<(Seq<char>, Seq<char>)>,
    count: int,
) -> Map<Seq<char>, Seq<char>>
    decreases count,
{
    if count <= 0 {
        env
    } else {
        let before = env_after(env, args, pairs, count - 1);
        let (key, value) = pairs[count - 1];
        before.insert(key, resolved(value, before, args))
    }
}

/// The labels after the first `count` assignments.
pub open spec fn labels_after(
    labels: Map<Seq<char>, Seq<char>>,
    env: Map<Seq<char>, Seq<char>>,
    args: Map<Seq<char>, Seq<char>>,
    pairs: Seq<(Seq<char>, Seq<char>)>,
    count: int,
) -> Map<Seq<char>, Seq<char>>
    decreases count,
{
    if count <= 0 {
        labels
    } else {
        let (key, value) = pairs[count - 1];
        labels_after(labels, env, args, pairs, count - 1).insert(key, resolved(value, env, args))
    }
}

/// The keys after the first `count` more.
pub open spec fn keys_after(
    keys: Set<Seq<char>>,
    env: Map<Seq<char>, Seq<char>>,
    args: Map<Seq<char>, Seq<char>>,
    more: Seq<Seq<char>>,
    count: int,
) -> Set<Seq<char>>
    decreases count,
{
    if count <= 0 {
        keys
    } else {
        keys_after(keys, env, args, more, count - 1).insert(resolved(more[count - 1], env, args))
    }
}

/// The state with the record of a step that leaves no layer.
pub open spec fn recorded(data: StageData, created: Seq<char>, created_by: Seq<char>) -> StageData {
    StageData { history: data.history.push(history_of(created, created_by, true)), ..data }
}

/// The text of a CMD or ENTRYPOINT.
pub open spec fn command_text(instruction: InstructionModel) -> Seq<char> {
    match instruction {
        InstructionModel::Cmd(text) => text,
        InstructionModel::Entrypoint(text) => text,
        _ => seq![],
    }
}

/// What an instruction does: the next state and what has to happen outside. `array`
/// is what the JSON parser made of the text of a CMD or ENTRYPOINT.
pub open spec fn stepped(
    data: StageData,
    instruction: InstructionModel,
    rootfs: Seq<char>,
    created: Seq<char>,
    array: Result<Seq<Seq<char>>, Seq<char>>,
) -> Result<(StageData, StageActionModel), Seq<char>> {
    let env = data.environment;
    let args = data.build_args;
    match instruction {
        InstructionModel::From { image, alias } => Ok((data, StageActionModel::Proceed)),
        InstructionModel::Arg { name, default } => {
            let known = if !args.contains_key(name) && default is Some {
                args.insert(name, resolved(default->0, env, args))
            } else {
                args
            };
            Ok(
                (
                    recorded(StageData { build_args: known, ..data }, created, "ARG "@ + name),
                    StageActionModel::Proceed,
                ),
            )
        },
        InstructionModel::Env(pairs) => {
            let next = env_after(env, args, pairs, pairs.len() as int);
            let config = ContainerConfigModel {
                env: Some(sorted_assignments(next)),
                ..data.config
            };
            Ok(
                (
                    recorded(StageData { environment: next, config, ..data }, created, "ENV"@),
                    StageActionModel::Proceed,
                ),
            )
        },
        InstructionModel::Workdir(path) => {
            let workdir = destination_in(data.workdir, path);
            match host_path(rootfs, workdir) {
                None => Err(invalid_container_path(workdir)),
                Some(directory) => {
                    let config = ContainerConfigModel { working_dir: Some(workdir), ..data.config };
                    Ok(
                        (
                            recorded(
                                StageData { workdir, config, ..data },
                                created,
                                "WORKDIR "@ + workdir,
                            ),
                            StageActionModel::MakeDirectory(directory),
                        ),
                    )
                },
            }
        },
        InstructionModel::Run { command, exec_form } => Ok((data, StageActionModel::Run)),
        InstructionModel::Copy(copy) => Ok((data, StageActionModel::Copy)),
        InstructionModel::Add(copy) => Ok((data, StageActionModel::Add)),
        InstructionModel::Cmd(text) => match command_words(text, data.shell, array) {
            Err(message) => Err(message),
            Ok(words) => {
                let config = ContainerConfigModel { cmd: Some(words), ..data.config };
                Ok(
                    (
                        recorded(StageData { config, ..data }, created, "CMD"@),
                        StageActionModel::Proceed,
                    ),
                )
            },
        },
        InstructionModel::Entrypoint(text) => match command_words(text, data.shell, array) {
            Err(message) => Err(message),
            Ok(words) => {
                let config = ContainerConfigModel { entrypoint: Some(words), ..data.config };
                Ok(
                    (
                        recorded(StageData { config, ..data }, created, "ENTRYPOINT"@),
                        StageActionModel::Proceed,
                    ),
                )
            },
        },
        InstructionModel::User(user) => {
            let config = ContainerConfigModel {
                user: Some(resolved(user, env, args)),
                ..data.config
            };
            Ok(
                (
                    recorded(StageData { config, ..data }, created, "USER "@ + user),
                    StageActionModel::Proceed,
                ),
            )
        },
        InstructionModel::Label(pairs) => {
            let labels = match data.config.labels {
                Some(labels) => labels,
                None => Map::empty(),
            };
            let config = ContainerConfigModel {
                labels: Some(labels_after(labels, env, args, pairs, pairs.len() as int)),
                ..data.config
            };
            Ok(
                (
                    recorded(StageData { config, ..data }, created, "LABEL"@),
                    StageActionModel::Proceed,
                ),
            )
        },
        InstructionModel::Expose(ports) => {
            let exposed = match data.config.exposed_ports {
                Some(exposed) => exposed,
                None => Set::empty(),
            };
            let config = ContainerConfigModel {
                exposed_ports: Some(keys_after(exposed, env, args, ports, ports.len() as int)),
                ..data.config
            };
            Ok(
                (
                    recorded(StageData { config, ..data }, created, "EXPOSE"@),
                    StageActionModel::Proceed,
                ),
            )
        },
        InstructionModel::Volume(paths) => {
            let volumes = match data.config.volumes {
                Some(volumes) => volumes,
                None => Set::empty(),
            };
            let config = ContainerConfigModel {
                volumes: Some(keys_after(volumes, env, args, paths, paths.len() as int)),
                ..data.config
            };
            Ok(
                (
                    recorded(StageData { config, ..data }, created, "VOLUME"@),
                    StageActionModel::Proceed,
                ),
            )
        },
        InstructionModel::Shell(words) => {
            let config = ContainerConfigModel { shell: Some(words), ..data.config };
            Ok(
                (
                    recorded(StageData { shell: words, config, ..data }, created, "SHELL"@),
                    StageActionModel::Proceed,
                ),
            )
        },
    }
}

/// How the record of a layer names the instruction that made it.
pub open spec fn layer_label(instruction: InstructionModel) -> Seq<char> {
    match instruction {
        InstructionModel::Run { command, exec_form } => "RUN "@ + command,
        InstructionModel::Copy(_) => "COPY"@,
        _ => "ADD"@,
    }
}

/// An instruction that leaves a layer.
pub open spec fn makes_layer(instruction: InstructionModel) -> bool {
    instruction is Run || instruction is Copy || instruction is Add
}

/// The state with a layer on top.
pub open spec fn with_layer(
    data: StageData,
    instruction: InstructionModel,
    layer: LayerModel,
    created: Seq<char>,
) -> StageData {
    StageData {
        layers: data.layers.push(layer.descriptor),
        diff_ids: data.diff_ids.push(layer.diff_id),
        history: data.history.push(history_of(created, layer_label(instruction), false)),
        ..data
    }
}

impl StageState {
    /// The state at the start of a stage.
    pub fn start(base: Option<BaseImage>, build_args: StringMap) -> (state: Self)
        ensures
            state.deep_view() == started(base, build_args.deep_view()),
    {
        let (architecture, os, config, diff_ids, history, layers) = match base {
            None => (
                "amd64".to_string(),
                "linux".to_string(),
                OciContainerConfig::default(),
                Vec::new(),
                Vec::new(),
                Vec::new(),
            ),
            Some(image) => {
                let config = match image.config {
                    Some(config) => config,
                    None => OciContainerConfig::default(),
                };
                let history = match image.history {
                    Some(history) => history,
                    None => Vec::new(),
                };
                (image.architecture, image.os, config, image.diff_ids, history, image.layers)
            },
        };
        let environment = match &config.env {
            Some(entries) => env_vec_to_map(entries),
            None => StringMap::new(),
        };
        let shell = match &config.shell {
            Some(words) => copy_texts(words),
            None => {
                let mut words: Vec<String> = Vec::new();
                words.push("/bin/sh".to_string());
                words.push("-c".to_string());
                assert(words.deep_view() =~= seq!["/bin/sh"@, "-c"@]);
                words
            },
        };
        let workdir = match &config.working_dir {
            Some(path) => path.clone(),
            None => "/".to_string(),
        };
        let state = StageState {
            architecture,
            os,
            config,
            layers,
            diff_ids,
            history,
            environment,
            build_args,
            shell,
            workdir,
        };
        assert(state.deep_view() =~= started(base, build_args.deep_view()));
        state
    }

    /// Adds the record of a step that leaves no layer.
    fn record(&mut self, created: &str, created_by: &str)
        ensures
            final(self).deep_view() == recorded(old(self).deep_view(), created@, created_by@),
    {
        let ghost before = self.history.deep_view();
        let entry = history_entry_at(created, created_by, true);
        self.history.push(entry);
        assert(self.history.deep_view() =~= before.push(entry.deep_view()));
    }

    /// Sets variables of the environment, each resolved with those before it.
    fn set_env(&mut self, pairs: &Vec<(String, String)>)
        ensures
            final(self).deep_view() == (StageData {
                environment: env_after(
                    old(self).environment.deep_view(),
                    old(self).build_args.deep_view(),
                    pairs.deep_view(),
                    pairs@.len() as int,
                ),
                ..old(self).deep_view()
            }),
    {
        let ghost start = *self;
        let ghost env = self.environment.deep_view();
        let ghost args = self.build_args.deep_view();
        let ghost all = pairs.deep_view();
        let mut at: usize = 0;
        while at < pairs.len()
            invariant
                at <= pairs@.len(),
                pairs.deep_view() == all,
                args == start.build_args.deep_view(),
                self.deep_view() == (StageData {
                    environment: env_after(env, args, all, at as int),
                    ..start.deep_view()
                }),
            decreases pairs@.len() - at,
        {
            let ghost before = self.environment.deep_view();
            assert(all[at as int] == (pairs@[at as int].0@, pairs@[at as int].1@));
            let value = interpolate(&pairs[at].1, &self.environment, &self.build_args);
            self.environment.insert(pairs[at].0.clone(), value);
            assert(self.environment.deep_view() =~= before.insert(
                pairs@[at as int].0@,
                value@,
            ));
            at = at + 1;
        }
    }

    /// The labels with more of them, each value resolved.
    fn more_labels(&self, labels: StringMap, pairs: &Vec<(String, String)>) -> (result: StringMap)
        ensures
            result.deep_view() == labels_after(
                labels.deep_view(),
                self.environment.deep_view(),
                self.build_args.deep_view(),
                pairs.deep_view(),
                pairs@.len() as int,
            ),
    {
        let ghost all = pairs.deep_view();
        let ghost env = self.environment.deep_view();
        let ghost args = self.build_args.deep_view();
        let ghost start = labels.deep_view();
        let mut result = labels;
        let mut at: usize = 0;
        while at < pairs.len()
            invariant
                at <= pairs@.len(),
                pairs.deep_view() == all,
                env == self.environment.deep_view(),
                args == self.build_args.deep_view(),
                result.deep_view() == labels_after(start, env, args, all, at as int),
            decreases pairs@.len() - at,
        {
            let ghost before = result.deep_view();
            assert(all[at as int] == (pairs@[at as int].0@, pairs@[at as int].1@));
            let value = interpolate(&pairs[at].1, &self.environment, &self.build_args);
            result.insert(pairs[at].0.clone(), value);
            assert(result.deep_view() =~= before.insert(pairs@[at as int].0@, value@));
            at = at + 1;
        }
        result
    }

    /// The keys with more of them, each resolved.
    fn more_keys(&self, keys: TextMap<EmptyObject>, more: &Vec<String>) -> (result: TextMap<
        EmptyObject,
    >)
        ensures
            result@.dom() == keys_after(
                keys@.dom(),
                self.environment.deep_view(),
                self.build_args.deep_view(),
                more.deep_view(),
                more@.len() as int,
            ),
    {
        let ghost all = more.deep_view();
        let ghost env = self.environment.deep_view();
        let ghost args = self.build_args.deep_view();
        let ghost start = keys@.dom();
        let mut result = keys;
        let mut at: usize = 0;
        while at < more.len()
            invariant
                at <= more@.len(),
                more.deep_view() == all,
                env == self.environment.deep_view(),
                args == self.build_args.deep_view(),
                result@.dom() == keys_after(start, env, args, all, at as int),
            decreases more@.len() - at,
        {
            let ghost before = result@;
            assert(all[at as int] == more@[at as int]@);
            let key = interpolate(&more[at], &self.environment, &self.build_args);
            result.insert(key, EmptyObject);
            assert(result@.dom() =~= before.dom().insert(key@));
            at = at + 1;
        }
        result
    }

    /// A CMD or ENTRYPOINT in the current shell, given what the JSON parser made of it.
    fn command(&self, text: &str, array: Result<Vec<String>, String>) -> (result: Result<
        Vec<String>,
        String,
    >)
        ensures
            outcome(result) == command_words(text@, self.shell.deep_view(), outcome(array)),
    {
        if starts_with(text, "[") {
            exec_form_command(text, array)
        } else {
            shell_form_command(text, &self.shell)
        }
    }

    /// Applies an instruction at a given time, given what the JSON parser made of the
    /// text of a CMD or ENTRYPOINT. A refused instruction changes nothing.
    #[verifier::rlimit(40)]
    pub fn apply_parsed_at(
        &mut self,
        instruction: &Instruction,
        rootfs: &str,
        created: &str,
        array: Result<Vec<String>, String>,
    ) -> (result: Result<StageAction, String>)
        ensures
            match stepped(
                old(self).deep_view(),
                instruction.deep_view(),
                rootfs@,
                created@,
                outcome(array),
            ) {
                Ok((data, action)) => final(self).deep_view() == data && outcome(result) == Ok::<
                    StageActionModel,
                    Seq<char>,
                >(action),
                Err(text) => *final(self) == *old(self) && outcome(result) == Err::<
                    StageActionModel,
                    Seq<char>,
                >(text),
            },
    {
        let ghost start = self.deep_view();
        match instruction {
            Instruction::From { .. } => Ok(StageAction::Proceed),
            Instruction::Arg { name, default } => {
                if !self.build_args.contains_key(name) {
                    if let Some(text) = default {
                        let ghost args = self.build_args.deep_view();
                        let value = interpolate(text, &self.environment, &self.build_args);
                        self.build_args.insert(name.clone(), value);
                        assert(self.build_args.deep_view() =~= args.insert(name@, value@));
                    }
                }
                self.record(created, &glue("ARG ", name));
                Ok(StageAction::Proceed)
            },
            Instruction::Env(pairs) => {
                self.set_env(pairs);
                self.config.env = Some(env_map_to_vec(&self.environment));
                self.record(created, "ENV");
                Ok(StageAction::Proceed)
            },
            Instruction::Workdir(path) => {
                let workdir = resolve_container_destination(&self.workdir, path);
                let directory = match host_path_for_container_path(rootfs, &workdir) {
                    Ok(directory) => directory,
                    Err(message) => {
                        return Err(message);
                    },
                };
                self.config.working_dir = Some(workdir.clone());
                let label = glue("WORKDIR ", &workdir);
                self.workdir = workdir;
                self.record(created, &label);
                Ok(StageAction::MakeDirectory(directory))
            },
            Instruction::Run { .. } => Ok(StageAction::Run),
            Instruction::Copy(_) => Ok(StageAction::Copy),
            Instruction::Add(_) => Ok(StageAction::Add),
            Instruction::Cmd(text) => match self.command(text, array) {
                Err(message) => Err(message),
                Ok(words) => {
                    self.config.cmd = Some(words);
                    self.record(created, "CMD");
                    Ok(StageAction::Proceed)
                },
            },
            Instruction::Entrypoint(text) => match self.command(text, array) {
                Err(message) => Err(message),
                Ok(words) => {
                    self.config.entrypoint = Some(words);
                    self.record(created, "ENTRYPOINT");
                    Ok(StageAction::Proceed)
                },
            },
            Instruction::User(user) => {
                self.config.user = Some(interpolate(user, &self.environment, &self.build_args));
                self.record(created, &glue("USER ", user));
                Ok(StageAction::Proceed)
            },
            Instruction::Label(pairs) => {
                let labels = match self.config.labels.take() {
                    Some(labels) => labels,
                    None => StringMap::new(),
                };
                assert(start.config.labels is None ==> labels.deep_view() =~= Map::empty());
                let more = self.more_labels(labels, pairs);
                self.config.labels = Some(more);
                self.record(created, "LABEL");
                Ok(StageAction::Proceed)
            },
            Instruction::Expose(ports) => {
                let exposed = match self.config.exposed_ports.take() {
                    Some(exposed) => exposed,
                    None => TextMap::new(),
                };
                assert(start.config.exposed_ports is None ==> exposed@.dom() =~= Set::empty());
                let more = self.more_keys(exposed, ports);
                self.config.exposed_ports = Some(more);
                self.record(created, "EXPOSE");
                Ok(StageAction::Proceed)
            },
            Instruction::Volume(paths) => {
                let volumes = match self.config.volumes.take() {
                    Some(volumes) => volumes,
                    None => TextMap::new(),
                };
                assert(start.config.volumes is None ==> volumes@.dom() =~= Set::empty());
                let more = self.more_keys(volumes, paths);
                self.config.volumes = Some(more);
                self.record(created, "VOLUME");
                Ok(StageAction::Proceed)
            },
            Instruction::Shell(words) => {
                self.shell = copy_texts(words);
                self.config.shell = Some(copy_texts(words));
                self.record(created, "SHELL");
                Ok(StageAction::Proceed)
            },
        }
    }

    /// Applies an instruction at a given time. A refused instruction changes nothing.
    pub fn apply_at(&mut self, instruction: &Instruction, rootfs: &str, created: &str) -> (result:
        Result<StageAction, String>)
        ensures
            match stepped(
                old(self).deep_view(),
                instruction.deep_view(),
                rootfs@,
                created@,
                json_strings(command_text(instruction.deep_view())),
            ) {
                Ok((data, action)) => final(self).deep_view() == data && outcome(result) == Ok::<
                    StageActionModel,
                    Seq<char>,
                >(action),
                Err(text) => *final(self) == *old(self) && outcome(result) == Err::<
                    StageActionModel,
                    Seq<char>,
                >(text),
            },
    {
        let array = match instruction {
            Instruction::Cmd(text) => if starts_with(text, "[") {
                parse_json_strings(text)
            } else {
                Ok(Vec::new())
            },
            Instruction::Entrypoint(text) => if starts_with(text, "[") {
                parse_json_strings(text)
            } else {
                Ok(Vec::new())
            },
            _ => Ok(Vec::new()),
        };
        self.apply_parsed_at(instruction, rootfs, created, array)
    }

    /// Applies an instruction now. A refused instruction changes nothing.
    pub fn apply(&mut self, instruction: &Instruction, rootfs: &str) -> (result: Result<
        StageAction,
        String,
    >)
        ensures
            exists|created: Seq<char>|
                match #[trigger] stepped(
                    old(self).deep_view(),
                    instruction.deep_view(),
                    rootfs@,
                    created,
                    json_strings(command_text(instruction.deep_view())),
                ) {
                    Ok((data, action)) => final(self).deep_view() == data && outcome(result) == Ok::<
                        StageActionModel,
                        Seq<char>,
                    >(action),
                    Err(text) => *final(self) == *old(self) && outcome(result) == Err::<
                        StageActionModel,
                        Seq<char>,
                    >(text),
                },
    {
        let created = now_rfc3339();
        self.apply_at(instruction, rootfs, &created)
    }

    /// Puts the layer that an instruction made on top, at a given time.
    pub fn add_layer_at(&mut self, instruction: &Instruction, layer: BuiltLayer, created: &str)
        requires
            makes_layer(instruction.deep_view()),
        ensures
            final(self).deep_view() == with_layer(
                old(self).deep_view(),
                instruction.deep_view(),
                layer.deep_view(),
                created@,
            ),
    {
        let ghost start = self.deep_view();
        let label = match instruction {
            Instruction::Run { command, .. } => glue("RUN ", command),
            Instruction::Copy(_) => "COPY".to_string(),
            _ => "ADD".to_string(),
        };
        let entry = history_entry_at(created, &label, false);
        self.history.push(entry);
        self.diff_ids.push(layer.diff_id);
        self.layers.push(layer.descriptor);
        proof {
            assert(self.history.deep_view() =~= start.history.push(entry.deep_view()));
            assert(self.diff_ids.deep_view() =~= start.diff_ids.push(layer.diff_id@));
            assert(self.layers.deep_view() =~= start.layers.push(layer.descriptor.deep_view()));
        }
    }

    /// Puts the layer that an instruction made on top.
    pub fn add_layer(&mut self, instruction: &Instruction, layer: BuiltLayer)
        requires
            makes_layer(instruction.deep_view()),
        ensures
            exists|created: Seq<char>|
                final(self).deep_view() == #[trigger] with_layer(
                    old(self).deep_view(),
                    instruction.deep_view(),
                    layer.deep_view(),
                    created,
                ),
    {
        let created = now_rfc3339();
        self.add_layer_at(instruction, layer, &created);
    }
}

// ---------------------------------------------------------------------------
// The finished stage
// ---------------------------------------------------------------------------
/// The image that a stage made.
pub struct StageImage {
    pub config: OciImageConfig,
    pub manifest: OciManifest,
    pub total_size: u64,
}

/// A [`StageImage`] as a mathematical value.
#[verifier::ext_equal]
pub struct StageImageModel {
    pub config: ImageConfigModel,
    pub manifest: ManifestModel,
    pub total_size: int,
}

impl DeepView for StageImage {
    type V = StageImageModel;

    open spec fn deep_view(&self) -> StageImageModel {
        StageImageModel {
            config: self.config.deep_view(),
            manifest: self.manifest.deep_view(),
            total_size: self.total_size as int,
        }
    }
}

/// The layers that have a digest.
pub open spec fn real_layers(layers: Seq<DescriptorModel>) -> Seq<DescriptorModel> {
    layers.filter(|layer: DescriptorModel| layer.digest.len() > 0)
}

/// The sizes of the layers added up.
pub open spec fn layers_size(layers: Seq<DescriptorModel>) -> int
    decreases layers.len(),
{
    if layers.len() == 0 {
        0
    } else {
        layers_size(layers.drop_last()) + layers.last().size
    }
}

/// The image that a state stands for. Its manifest does not name a configuration
/// yet.
pub open spec fn finished(data: StageData, created: Seq<char>) -> StageImageModel {
    let layers = real_layers(data.layers);
    StageImageModel {
        config: ImageConfigModel {
            architecture: data.architecture,
            os: data.os,
            os_version: None,
            config: Some(
                ContainerConfigModel {
                    env: Some(sorted_assignments(data.environment)),
                    working_dir: Some(data.workdir),
                    shell: Some(data.shell),
                    ..data.config
                },
            ),
            fs_type: "layers"@,
            diff_ids: data.diff_ids,
            history: Some(data.history),
            created: Some(created),
            author: Some("qbuild"@),
        },
        manifest: ManifestModel {
            schema_version: 2,
            media_type: Some(MediaType::OciManifest.name()),
            config: plain_descriptor(MediaType::OciImageConfig.name(), seq![], 0),
            layers,
            annotations: None,
        },
        total_size: layers_size(layers),
    }
}

/// The layers that have a digest.
fn keep_real_layers(layers: &Vec<Descriptor>) -> (kept: Vec<Descriptor>)
    ensures
        kept.deep_view() == real_layers(layers.deep_view()),
{
    let ghost all = layers.deep_view();
    let ghost is_real = |layer: DescriptorModel| layer.digest.len() > 0;
    let mut kept: Vec<Descriptor> = Vec::new();
    let mut at: usize = 0;
    proof {
        lemma_filter_empty(all.take(0), is_real);
        assert(kept.deep_view() =~= Seq::<DescriptorModel>::empty());
    }
    while at < layers.len()
        invariant
            at <= layers@.len(),
            layers.deep_view() == all,
            is_real == (|layer: DescriptorModel| layer.digest.len() > 0),
            kept.deep_view() == all.take(at as int).filter(is_real),
        decreases layers@.len() - at,
    {
        let ghost before = kept.deep_view();
        proof {
            assert(all[at as int] == layers@[at as int].deep_view());
            lemma_filter_next(all, at as int, is_real);
        }
        if !is_empty(&layers[at].digest) {
            let copy = layers[at].clone();
            kept.push(copy);
            assert(kept.deep_view() =~= before.push(copy.deep_view()));
        }
        at = at + 1;
    }
    assert(all.take(at as int) =~= all);
    kept
}

/// The sizes of the layers with a digest added up, unless the sum is too large.
pub fn total_layer_size(layers: &Vec<Descriptor>) -> (total: Option<u64>)
    ensures
        total is Some == (layers_size(real_layers(layers.deep_view())) <= u64::MAX),
        total matches Some(size) ==> size == layers_size(real_layers(layers.deep_view())),
{
    let kept = keep_real_layers(layers);
    sum_sizes(&kept)
}

/// The sizes of the layers added up, unless the sum is too large.
fn sum_sizes(layers: &Vec<Descriptor>) -> (total: Option<u64>)
    ensures
        total is Some == (layers_size(layers.deep_view()) <= u64::MAX),
        total matches Some(size) ==> size == layers_size(layers.deep_view()),
{
    let ghost all = layers.deep_view();
    let mut total: u64 = 0;
    let mut at: usize = 0;
    while at < layers.len()
        invariant
            at <= layers@.len(),
            layers.deep_view() == all,
            total == layers_size(all.take(at as int)),
        decreases layers@.len() - at,
    {
        proof {
            assert(all[at as int] == layers@[at as int].deep_view());
            assert(all.take(at + 1).drop_last() =~= all.take(at as int));
            lemma_layers_size_grows(all, at + 1);
        }
        match total.checked_add(layers[at].size) {
            Some(sum) => {
                total = sum;
            },
            None => {
                return None;
            },
        }
        at = at + 1;
    }
    assert(all.take(at as int) =~= all);
    Some(total)
}

/// More layers are at least as large.
proof fn lemma_layers_size_grows(layers: Seq<DescriptorModel>, count: int)
    requires
        0 <= count <= layers.len(),
    ensures
        0 <= layers_size(layers.take(count)) <= layers_size(layers),
    decreases layers.len(),
{
    if count < layers.len() {
        assert(layers.drop_last().take(count) =~= layers.take(count));
        lemma_layers_size_grows(layers.drop_last(), count);
    } else {
        assert(layers.take(count) =~= layers);
        if count > 0 {
            assert(layers.drop_last().take(count - 1) =~= layers.drop_last());
            lemma_layers_size_grows(layers.drop_last(), count - 1);
        }
    }
}

impl StageState {
    /// The image that the stage made, at a given time.
    pub fn finish_at(self, created: &str) -> (image: StageImage)
        requires
            layers_size(real_layers(self.layers.deep_view())) <= u64::MAX,
        ensures
            image.deep_view() == finished(self.deep_view(), created@),
    {
        let layers = keep_real_layers(&self.layers);
        let total_size = match sum_sizes(&layers) {
            Some(total) => total,
            None => 0,
        };
        let environment = env_map_to_vec(&self.environment);
        let config = OciContainerConfig {
            user: self.config.user,
            exposed_ports: self.config.exposed_ports,
            env: Some(environment),
            entrypoint: self.config.entrypoint,
            cmd: self.config.cmd,
            volumes: self.config.volumes,
            working_dir: Some(self.workdir),
            labels: self.config.labels,
            shell: Some(self.shell),
        };
        let none = String::new();
        assert(none@ =~= seq![]);
        let image = StageImage {
            config: OciImageConfig {
                architecture: self.architecture,
                os: self.os,
                os_version: None,
                config: Some(config),
                rootfs: RootFs { fs_type: "layers".to_string(), diff_ids: self.diff_ids },
                history: Some(self.history),
                created: Some(created.to_string()),
                author: Some("qbuild".to_string()),
            },
            manifest: OciManifest {
                schema_version: 2,
                media_type: Some(MediaType::OciManifest.to_text()),
                config: Descriptor::plain(MediaType::OciImageConfig, none, 0),
                layers,
                annotations: None,
            },
            total_size,
        };
        assert(image.deep_view() =~= finished(self.deep_view(), created@));
        image
    }

    /// The image that the stage made.
    pub fn finish(self) -> (image: StageImage)
        requires
            layers_size(real_layers(self.layers.deep_view())) <= u64::MAX,
        ensures
            exists|created: Seq<char>|
                image.deep_view() == #[trigger] finished(self.deep_view(), created),
    {
        let created = now_rfc3339();
        self.finish_at(&created)
    }
}

// ---------------------------------------------------------------------------
// Laws
// ---------------------------------------------------------------------------
/// The records of steps that left a layer.
pub open spec fn layer_records(history: Seq<HistoryModel>) -> Seq<HistoryModel> {
    history.filter(|entry: HistoryModel| entry.empty_layer == Some(false))
}

proof fn lemma_layer_records_push(history: Seq<HistoryModel>, entry: HistoryModel)
    ensures
        layer_records(history.push(entry)) == if entry.empty_layer == Some(false) {
            layer_records(history).push(entry)
        } else {
            layer_records(history)
        },
{
    let is_layer = |entry: HistoryModel| entry.empty_layer == Some(false);
    let next = history.push(entry);
    lemma_filter_next(next, history.len() as int, is_layer);
    assert(next.take(history.len() as int) =~= history);
    assert(next.take(history.len() as int + 1) =~= next);
}

/// An instruction by itself leaves layers, their digests and the records of layers
/// as they are.
pub proof fn steps_make_no_layers(
    data: StageData,
    instruction: InstructionModel,
    rootfs: Seq<char>,
    created: Seq<char>,
    array: Result<Seq<Seq<char>>, Seq<char>>,
)
    ensures
        stepped(data, instruction, rootfs, created, array) matches Ok((next, action)) ==> {
            &&& next.layers == data.layers
            &&& next.diff_ids == data.diff_ids
            &&& layer_records(next.history) == layer_records(data.history)
            &&& makes_layer(instruction) ==> next == data
            &&& (action is Run || action is Copy || action is Add) == makes_layer(instruction)
        },
{
    if let Ok((next, action)) = stepped(data, instruction, rootfs, created, array) {
        if next.history.len() > data.history.len() {
            lemma_layer_records_push(data.history, next.history.last());
            assert(next.history =~= data.history.push(next.history.last()));
        }
    }
}

/// A layer adds exactly one descriptor, one digest and one record: where there were
/// as many of each before, there are as many of each after.
pub proof fn layers_stay_in_line(
    data: StageData,
    instruction: InstructionModel,
    layer: LayerModel,
    created: Seq<char>,
)
    ensures
        ({
            let next = with_layer(data, instruction, layer, created);
            &&& next.layers.len() == data.layers.len() + 1
            &&& next.diff_ids.len() == data.diff_ids.len() + 1
            &&& layer_records(next.history).len() == layer_records(data.history).len() + 1
            &&& next.diff_ids.last() == layer.diff_id
            &&& next.layers.last() == layer.descriptor
        }),
{
    lemma_layer_records_push(
        data.history,
        history_of(created, layer_label(instruction), false),
    );
}

/// The state after the first `count` instructions, each applied at its time and, where
/// it leaves a layer, followed by that layer.
pub open spec fn stage_after(
    start: StageData,
    instructions: Seq<InstructionModel>,
    layers: Seq<LayerModel>,
    times: Seq<Seq<char>>,
    rootfs: Seq<char>,
    count: int,
) -> Result<StageData, Seq<char>>
    decreases count,
{
    if count <= 0 {
        Ok(start)
    } else {
        match stage_after(start, instructions, layers, times, rootfs, count - 1) {
            Err(message) => Err(message),
            Ok(data) => {
                let instruction = instructions[count - 1];
                let array = json_strings(command_text(instruction));
                match stepped(data, instruction, rootfs, times[count - 1], array) {
                    Err(message) => Err(message),
                    Ok((next, _)) => if makes_layer(instruction) {
                        Ok(with_layer(next, instruction, layers[count - 1], times[count - 1]))
                    } else {
                        Ok(next)
                    },
                }
            },
        }
    }
}

/// How many of the first `count` instructions leave a layer.
pub open spec fn layer_steps(instructions: Seq<InstructionModel>, count: int) -> int
    decreases count,
{
    if count <= 0 {
        0
    } else {
        layer_steps(instructions, count - 1) + if makes_layer(instructions[count - 1]) {
            1int
        } else {
            0
        }
    }
}

/// Over a whole stage, each RUN, COPY and ADD adds one layer, one digest and one
/// record of a layer, and nothing else does.
pub proof fn layers_match_their_instructions(
    start: StageData,
    instructions: Seq<InstructionModel>,
    layers: Seq<LayerModel>,
    times: Seq<Seq<char>>,
    rootfs: Seq<char>,
    count: int,
)
    requires
        0 <= count <= instructions.len(),
    ensures
        stage_after(start, instructions, layers, times, rootfs, count) matches Ok(data) ==> {
            let added = layer_steps(instructions, count);
            &&& data.layers.len() == start.layers.len() + added
            &&& data.diff_ids.len() == start.diff_ids.len() + added
            &&& layer_records(data.history).len() == layer_records(start.history).len() + added
        },
    decreases count,
{
    if count > 0 {
        layers_match_their_instructions(start, instructions, layers, times, rootfs, count - 1);
        if let Ok(data) = stage_after(start, instructions, layers, times, rootfs, count - 1) {
            let instruction = instructions[count - 1];
            let array = json_strings(command_text(instruction));
            let time = times[count - 1];
            steps_make_no_layers(data, instruction, rootfs, time, array);
            if let Ok((next, _)) = stepped(data, instruction, rootfs, time, array) {
                layers_stay_in_line(next, instruction, layers[count - 1], time);
            }
        }
    }
}

/// An ARG whose name has a value already only leaves a record.
pub proof fn known_arguments_keep_their_value(
    data: StageData,
    name: Seq<char>,
    default: Option<Seq<char>>,
    rootfs: Seq<char>,
    created: Seq<char>,
    array: Result<Seq<Seq<char>>, Seq<char>>,
)
    requires
        data.build_args.contains_key(name),
    ensures
        stepped(data, InstructionModel::Arg { name, default }, rootfs, created, array) == Ok::<
            (StageData, StageActionModel),
            Seq<char>,
        >((recorded(data, created, "ARG "@ + name), StageActionModel::Proceed)),
{
}

/// WORKDIR is never refused.
pub proof fn workdir_always_applies(
    data: StageData,
    path: Seq<char>,
    rootfs: Seq<char>,
    created: Seq<char>,
    array: Result<Seq<Seq<char>>, Seq<char>>,
)
    ensures
        stepped(data, InstructionModel::Workdir(path), rootfs, created, array) is Ok,
{
    crate::path::destination_stays_inside(rootfs, data.workdir, path);
}

/// A finished image says what its state says: its environment reads back as the
/// state's, provided no name holds an equals sign.
pub proof fn finished_environment_reads_back(data: StageData, created: Seq<char>)
    requires
        data.environment.dom().finite(),
        forall|key: Seq<char>| #[trigger]
            data.environment.contains_key(key) ==> !key.contains('='),
    ensures
        env_of(finished(data, created).config.config->0.env->0) == data.environment,
{
    crate::environment::environment_reads_back(data.environment);
}

/// An instruction changes only what it is about: each part of the configuration, the
/// environment, the build arguments, the shell and the working directory stay unless the
/// instruction is the one for it.
pub proof fn instructions_change_only_their_part(
    data: StageData,
    instruction: InstructionModel,
    rootfs: Seq<char>,
    created: Seq<char>,
    array: Result<Seq<Seq<char>>, Seq<char>>,
)
    ensures
        stepped(data, instruction, rootfs, created, array) matches Ok((next, action)) ==> {
            &&& next.architecture == data.architecture
            &&& next.os == data.os
            &&& next.layers == data.layers
            &&& next.diff_ids == data.diff_ids
            &&& !(instruction is Env) ==> next.environment == data.environment && next.config.env
                == data.config.env
            &&& !(instruction is Arg) ==> next.build_args == data.build_args
            &&& !(instruction is Shell) ==> next.shell == data.shell && next.config.shell
                == data.config.shell
            &&& !(instruction is Workdir) ==> next.workdir == data.workdir
                && next.config.working_dir == data.config.working_dir
            &&& !(instruction is Cmd) ==> next.config.cmd == data.config.cmd
            &&& !(instruction is Entrypoint) ==> next.config.entrypoint == data.config.entrypoint
            &&& !(instruction is User) ==> next.config.user == data.config.user
            &&& !(instruction is Label) ==> next.config.labels == data.config.labels
            &&& !(instruction is Expose) ==> next.config.exposed_ports
                == data.config.exposed_ports
            &&& !(instruction is Volume) ==> next.config.volumes == data.config.volumes
        },
{
}

/// Each instruction that changes the state is recorded once, at its time, under its
/// keyword, as a step without a layer; the others leave the history as it is.
pub proof fn instructions_are_recorded(
    data: StageData,
    instruction: InstructionModel,
    rootfs: Seq<char>,
    created: Seq<char>,
    array: Result<Seq<Seq<char>>, Seq<char>>,
)
    ensures
        stepped(data, instruction, rootfs, created, array) matches Ok((next, action)) ==> {
            let silent = instruction is From || instruction is Run || instruction is Copy
                || instruction is Add;
            &&& silent ==> next.history == data.history
            &&& !silent ==> {
                let entry = next.history.last();
                &&& next.history.len() == data.history.len() + 1
                &&& next.history.drop_last() == data.history
                &&& entry.created == Some(created)
                &&& entry.author == Some("qbuild"@)
                &&& entry.comment is None
                &&& entry.empty_layer == Some(true)
                &&& match instruction {
                    InstructionModel::Arg { name, .. } => entry.created_by == Some("ARG "@ + name),
                    InstructionModel::Env(_) => entry.created_by == Some("ENV"@),
                    InstructionModel::Workdir(_) => entry.created_by == Some(
                        "WORKDIR "@ + next.workdir,
                    ),
                    InstructionModel::Cmd(_) => entry.created_by == Some("CMD"@),
                    InstructionModel::Entrypoint(_) => entry.created_by == Some("ENTRYPOINT"@),
                    InstructionModel::User(user) => entry.created_by == Some("USER "@ + user),
                    InstructionModel::Label(_) => entry.created_by == Some("LABEL"@),
                    InstructionModel::Expose(_) => entry.created_by == Some("EXPOSE"@),
                    InstructionModel::Volume(_) => entry.created_by == Some("VOLUME"@),
                    InstructionModel::Shell(_) => entry.created_by == Some("SHELL"@),
                    _ => true,
                }
            }
        },
{
    if let Ok((next, _)) = stepped(data, instruction, rootfs, created, array) {
        if next.history.len() > data.history.len() {
            assert(next.history.drop_last() =~= data.history);
        }
    }
}

/// ENV sets its variables one after the other: an ENV of several assignments leaves the
/// environment that its first ones leave, with the last one set to its value, in which the
/// variables stand for what they were set to so far. The configuration lists the
/// environment.
pub proof fn assignments_count_one_by_one(
    data: StageData,
    pairs: Seq<(Seq<char>, Seq<char>)>,
    rootfs: Seq<char>,
    created: Seq<char>,
    array: Result<Seq<Seq<char>>, Seq<char>>,
)
    ensures
        stepped(data, InstructionModel::Env(pairs), rootfs, created, array) matches Ok((next, action))
            && {
            &&& action is Proceed
            &&& next.config.env == Some(sorted_assignments(next.environment))
            &&& pairs.len() == 0 ==> next.environment == data.environment
            &&& pairs.len() > 0 ==> (stepped(
                data,
                InstructionModel::Env(pairs.drop_last()),
                rootfs,
                created,
                array,
            ) matches Ok((before, _)) && next.environment == before.environment.insert(
                pairs.last().0,
                resolved(pairs.last().1, before.environment, data.build_args),
            ))
        },
{
    if pairs.len() > 0 {
        let fewer = pairs.drop_last();
        let last = pairs.len() - 1;
        lemma_env_after_prefix(data.environment, data.build_args, pairs, fewer, last);
    }
}

/// Assignments count as far as they are the same.
proof fn lemma_env_after_prefix(
    env: Map<Seq<char>, Seq<char>>,
    args: Map<Seq<char>, Seq<char>>,
    pairs: Seq<(Seq<char>, Seq<char>)>,
    others: Seq<(Seq<char>, Seq<char>)>,
    count: int,
)
    requires
        0 <= count <= pairs.len(),
        count <= others.len(),
        forall|i: int| 0 <= i < count ==> pairs[i] == others[i],
    ensures
        env_after(env, args, pairs, count) == env_after(env, args, others, count),
    decreases count,
{
    if count > 0 {
        lemma_env_after_prefix(env, args, pairs, others, count - 1);
    }
}

/// A variable that ENV sets to a plain value last has that value, and one that it does not
/// set keeps what it had.
pub proof fn environments_hold_what_was_set(
    data: StageData,
    pairs: Seq<(Seq<char>, Seq<char>)>,
    rootfs: Seq<char>,
    created: Seq<char>,
    array: Result<Seq<Seq<char>>, Seq<char>>,
    key: Seq<char>,
    at: int,
)
    ensures
        stepped(data, InstructionModel::Env(pairs), rootfs, created, array) matches Ok((next, _)) && {
            &&& 0 <= at < pairs.len() && pairs[at].0 == key && !pairs[at].1.contains('$') && (
            forall|later: int|
                at < later < pairs.len() ==> (#[trigger] pairs[later]).0 != key)
                ==> next.environment.contains_key(key) && next.environment[key] == pairs[at].1
            &&& (forall|i: int| 0 <= i < pairs.len() ==> (#[trigger] pairs[i]).0 != key)
                ==> next.environment.contains_key(key) == data.environment.contains_key(key) && (
            data.environment.contains_key(key) ==> next.environment[key]
                == data.environment[key])
        },
{
    let env = data.environment;
    let args = data.build_args;
    let all = pairs.len() as int;
    if forall|i: int| 0 <= i < pairs.len() ==> (#[trigger] pairs[i]).0 != key {
        lemma_unset_stays(env, args, pairs, key, 0, all);
    }
    if 0 <= at < pairs.len() && pairs[at].0 == key && !pairs[at].1.contains('$') && (forall|
        later: int,
    |
        at < later < pairs.len() ==> (#[trigger] pairs[later]).0 != key) {
        crate::interpolation::plain_text_is_kept(
            pairs[at].1,
            env_after(env, args, pairs, at),
            args,
        );
        lemma_unset_stays(env, args, pairs, key, at + 1, all);
    }
}

proof fn lemma_unset_stays(
    env: Map<Seq<char>, Seq<char>>,
    args: Map<Seq<char>, Seq<char>>,
    pairs: Seq<(Seq<char>, Seq<char>)>,
    key: Seq<char>,
    from: int,
    count: int,
)
    requires
        0 <= from <= count <= pairs.len(),
        forall|i: int| from <= i < count ==> (#[trigger] pairs[i]).0 != key,
    ensures
        env_after(env, args, pairs, count).contains_key(key) == env_after(
            env,
            args,
            pairs,
            from,
        ).contains_key(key),
        env_after(env, args, pairs, from).contains_key(key) ==> env_after(
            env,
            args,
            pairs,
            count,
        )[key] == env_after(env, args, pairs, from)[key],
    decreases count,
{
    if from < count {
        lemma_unset_stays(env, args, pairs, key, from, count - 1);
        assert(pairs[count - 1].0 != key);
    }
}

/// ARG gives its name the default where it has none yet, with the variables of the default
/// replaced; a name that has a value and all other names keep theirs.
pub proof fn arguments_have_their_defaults(
    data: StageData,
    name: Seq<char>,
    default: Option<Seq<char>>,
    rootfs: Seq<char>,
    created: Seq<char>,
    array: Result<Seq<Seq<char>>, Seq<char>>,
    other: Seq<char>,
)
    ensures
        stepped(data, InstructionModel::Arg { name, default }, rootfs, created, array) matches Ok(
            (next, action),
        ) && {
            &&& action is Proceed
            &&& data.build_args.contains_key(name) || default is None ==> next.build_args
                == data.build_args
            &&& !data.build_args.contains_key(name) ==> (default matches Some(value)
                ==> next.build_args.contains_key(name) && next.build_args[name] == resolved(
                value,
                data.environment,
                data.build_args,
            ))
            &&& other != name ==> next.build_args.contains_key(other)
                == data.build_args.contains_key(other) && (data.build_args.contains_key(other)
                ==> next.build_args[other] == data.build_args[other])
        },
{
}

/// WORKDIR goes from the working directory to its path: an absolute path counts by itself,
/// and any other from where the stage was. The configuration says the same, and the
/// directory is made at its place under the root.
pub proof fn workdirs_are_entered(
    data: StageData,
    path: Seq<char>,
    rootfs: Seq<char>,
    created: Seq<char>,
    array: Result<Seq<Seq<char>>, Seq<char>>,
)
    ensures
        stepped(data, InstructionModel::Workdir(path), rootfs, created, array) matches Ok(
            (next, action),
        ) && {
            &&& absolute(next.workdir)
            &&& path.len() > 0 && path[0] == '/' ==> names(next.workdir) == names(path)
            &&& !(path.len() > 0 && path[0] == '/') ==> names(next.workdir) == names(data.workdir)
                + names(path)
            &&& next.config.working_dir == Some(next.workdir)
            &&& action matches StageActionModel::MakeDirectory(directory) && names(directory)
                == names(rootfs) + names(next.workdir)
        },
{
    crate::path::destination_stays_inside(rootfs, data.workdir, path);
    crate::path::destinations_go_below_the_workdir(data.workdir, path);
    crate::path::places_have_the_names_of_their_paths(
        rootfs,
        destination_in(data.workdir, path),
    );
}

/// CMD and ENTRYPOINT set their own part of the configuration: to the words of the array
/// where the text starts with a bracket, and else to the shell followed by the text. They
/// are refused only where the array is none, or where there is no shell.
pub proof fn commands_are_set(
    data: StageData,
    text: Seq<char>,
    rootfs: Seq<char>,
    created: Seq<char>,
    array: Result<Seq<Seq<char>>, Seq<char>>,
)
    ensures
        ({
            let cmd = stepped(data, InstructionModel::Cmd(text), rootfs, created, array);
            let entry = stepped(data, InstructionModel::Entrypoint(text), rootfs, created, array);
            if text.len() > 0 && text[0] == '[' {
                match array {
                    Ok(words) => {
                        &&& cmd matches Ok((next, action)) && next.config.cmd == Some(words)
                            && action is Proceed
                        &&& entry matches Ok((next, action)) && next.config.entrypoint == Some(
                            words,
                        ) && action is Proceed
                    },
                    Err(_) => cmd is Err && entry is Err,
                }
            } else if data.shell.len() > 0 {
                &&& cmd matches Ok((next, action)) && next.config.cmd == Some(
                    data.shell.push(text),
                ) && action is Proceed
                &&& entry matches Ok((next, action)) && next.config.entrypoint == Some(
                    data.shell.push(text),
                ) && action is Proceed
            } else {
                cmd is Err && entry is Err
            }
        }),
{
    reveal_strlit("[");
    if text.len() > 0 {
        assert((text.take(1) == "["@) == (text[0] == '[')) by {
            if text[0] == '[' {
                assert(text.take(1) =~= "["@);
            } else {
                assert(text.take(1)[0] != "["@[0]);
            }
        }
    }
}

/// USER and SHELL set their own part: the user with its variables replaced, and the shell
/// word for word, for the commands to come and in the configuration.
pub proof fn users_and_shells_are_set(
    data: StageData,
    user: Seq<char>,
    words: Seq<Seq<char>>,
    rootfs: Seq<char>,
    created: Seq<char>,
    array: Result<Seq<Seq<char>>, Seq<char>>,
)
    ensures
        stepped(data, InstructionModel::User(user), rootfs, created, array) matches Ok((next, action))
            && action is Proceed && next.config.user == Some(
            resolved(user, data.environment, data.build_args),
        ) && (!user.contains('$') ==> next.config.user == Some(user)),
        stepped(data, InstructionModel::Shell(words), rootfs, created, array) matches Ok(
            (next, action),
        ) && action is Proceed && next.shell == words && next.config.shell == Some(words),
{
    if !user.contains('$') {
        crate::interpolation::plain_text_is_kept(user, data.environment, data.build_args);
    }
}

/// LABEL sets its labels: the last assignment to a key counts, with its variables replaced,
/// and the labels that it does not set stay.
pub proof fn labels_are_set(
    data: StageData,
    pairs: Seq<(Seq<char>, Seq<char>)>,
    rootfs: Seq<char>,
    created: Seq<char>,
    array: Result<Seq<Seq<char>>, Seq<char>>,
    key: Seq<char>,
    at: int,
)
    ensures
        stepped(data, InstructionModel::Label(pairs), rootfs, created, array) matches Ok(
            (next, action),
        ) && action is Proceed && (next.config.labels matches Some(labels) && {
            &&& 0 <= at < pairs.len() && pairs[at].0 == key && (forall|later: int|
                at < later < pairs.len() ==> (#[trigger] pairs[later]).0 != key)
                ==> labels.contains_key(key) && labels[key] == resolved(
                pairs[at].1,
                data.environment,
                data.build_args,
            )
            &&& (forall|i: int| 0 <= i < pairs.len() ==> (#[trigger] pairs[i]).0 != key) ==> match
                data.config.labels {
                Some(before) => labels.contains_key(key) == before.contains_key(key) && (
                before.contains_key(key) ==> labels[key] == before[key]),
                None => !labels.contains_key(key),
            }
        }),
{
    let before = match data.config.labels {
        Some(labels) => labels,
        None => Map::empty(),
    };
    let all = pairs.len() as int;
    if forall|i: int| 0 <= i < pairs.len() ==> (#[trigger] pairs[i]).0 != key {
        lemma_other_labels_stay(before, data.environment, data.build_args, pairs, key, 0, all);
    }
    if 0 <= at < pairs.len() && pairs[at].0 == key && (forall|later: int|
        at < later < pairs.len() ==> (#[trigger] pairs[later]).0 != key) {
        lemma_other_labels_stay(before, data.environment, data.build_args, pairs, key, at + 1, all);
    }
}

proof fn lemma_other_labels_stay(
    labels: Map<Seq<char>, Seq<char>>,
    env: Map<Seq<char>, Seq<char>>,
    args: Map<Seq<char>, Seq<char>>,
    pairs: Seq<(Seq<char>, Seq<char>)>,
    key: Seq<char>,
    from: int,
    count: int,
)
    requires
        0 <= from <= count <= pairs.len(),
        forall|i: int| from <= i < count ==> (#[trigger] pairs[i]).0 != key,
    ensures
        labels_after(labels, env, args, pairs, count).contains_key(key) == labels_after(
            labels,
            env,
            args,
            pairs,
            from,
        ).contains_key(key),
        labels_after(labels, env, args, pairs, from).contains_key(key) ==> labels_after(
            labels,
            env,
            args,
            pairs,
            count,
        )[key] == labels_after(labels, env, args, pairs, from)[key],
    decreases count,
{
    if from < count {
        lemma_other_labels_stay(labels, env, args, pairs, key, from, count - 1);
        assert(pairs[count - 1].0 != key);
    }
}

/// One of the texts, with its variables replaced, is the key.
pub open spec fn is_named(
    texts: Seq<Seq<char>>,
    env: Map<Seq<char>, Seq<char>>,
    args: Map<Seq<char>, Seq<char>>,
    count: int,
    key: Seq<char>,
) -> bool {
    exists|i: int| 0 <= i < count && resolved(#[trigger] texts[i], env, args) == key
}

/// EXPOSE and VOLUME add to their part of the configuration: it has the ports or paths
/// that it had and those that were named, and no others.
pub proof fn ports_and_volumes_are_added(
    data: StageData,
    texts: Seq<Seq<char>>,
    rootfs: Seq<char>,
    created: Seq<char>,
    array: Result<Seq<Seq<char>>, Seq<char>>,
    key: Seq<char>,
)
    ensures
        ({
            let named = is_named(
                texts,
                data.environment,
                data.build_args,
                texts.len() as int,
                key,
            );
            &&& stepped(data, InstructionModel::Expose(texts), rootfs, created, array) matches Ok(
                (next, action),
            ) && action is Proceed && (next.config.exposed_ports matches Some(ports)
                && ports.contains(key) == (named || (data.config.exposed_ports matches Some(before)
                && before.contains(key))))
            &&& stepped(data, InstructionModel::Volume(texts), rootfs, created, array) matches Ok(
                (next, action),
            ) && action is Proceed && (next.config.volumes matches Some(paths) && paths.contains(
                key,
            ) == (named || (data.config.volumes matches Some(before) && before.contains(key))))
        }),
{
    let ports = match data.config.exposed_ports {
        Some(ports) => ports,
        None => Set::empty(),
    };
    let paths = match data.config.volumes {
        Some(paths) => paths,
        None => Set::empty(),
    };
    let all = texts.len() as int;
    lemma_keys_are_added(ports, data.environment, data.build_args, texts, all, key);
    lemma_keys_are_added(paths, data.environment, data.build_args, texts, all, key);
}

proof fn lemma_keys_are_added(
    keys: Set<Seq<char>>,
    env: Map<Seq<char>, Seq<char>>,
    args: Map<Seq<char>, Seq<char>>,
    more: Seq<Seq<char>>,
    count: int,
    key: Seq<char>,
)
    requires
        0 <= count <= more.len(),
    ensures
        keys_after(keys, env, args, more, count).contains(key) == (keys.contains(key) || is_named(
            more,
            env,
            args,
            count,
            key,
        )),
    decreases count,
{
    if count > 0 {
        lemma_keys_are_added(keys, env, args, more, count - 1, key);
        if is_named(more, env, args, count - 1, key) {
            let i = choose|i: int|
                0 <= i < count - 1 && resolved(#[trigger] more[i], env, args) == key;
            assert(resolved(more[i], env, args) == key);
        }
        if resolved(more[count - 1], env, args) == key {
            assert(is_named(more, env, args, count, key));
        }
        if is_named(more, env, args, count, key) && resolved(more[count - 1], env, args) != key {
            let i = choose|i: int| 0 <= i < count && resolved(#[trigger] more[i], env, args) == key;
            assert(i < count - 1);
            assert(is_named(more, env, args, count - 1, key));
        }
    }
}

/// A layer goes on top of those below it and changes nothing else: the descriptor and the
/// digest of the layer itself come last, and it is recorded at its time with the command
/// that was run, or under its keyword.
pub proof fn layers_go_on_top(
    data: StageData,
    instruction: InstructionModel,
    layer: LayerModel,
    created: Seq<char>,
)
    ensures
        ({
            let next = with_layer(data, instruction, layer, created);
            let entry = next.history.last();
            &&& next.layers == data.layers.push(layer.descriptor)
            &&& next.diff_ids == data.diff_ids.push(layer.diff_id)
            &&& next.history.drop_last() == data.history
            &&& next.history.len() == data.history.len() + 1
            &&& entry.created == Some(created)
            &&& entry.author == Some("qbuild"@)
            &&& entry.comment is None
            &&& entry.empty_layer == Some(false)
            &&& instruction matches InstructionModel::Run { command, .. } ==> entry.created_by
                == Some("RUN "@ + command)
            &&& instruction is Copy ==> entry.created_by == Some("COPY"@)
            &&& instruction is Add ==> entry.created_by == Some("ADD"@)
            &&& next.architecture == data.architecture
            &&& next.os == data.os
            &&& next.config == data.config
            &&& next.environment == data.environment
            &&& next.build_args == data.build_args
            &&& next.shell == data.shell
            &&& next.workdir == data.workdir
        }),
{
    let next = with_layer(data, instruction, layer, created);
    assert(next.history.drop_last() =~= data.history);
}

/// A stage starts where its base image left off: with its platform, its layers, their
/// digests, its history and its configuration, in the environment, the shell and the
/// directory that the configuration says. A stage from nothing has none of these, the
/// usual shell, and the root for its directory.
pub proof fn stages_start_from_their_base(
    base: Option<BaseImage>,
    build_args: Map<Seq<char>, Seq<char>>,
)
    ensures
        started(base, build_args).build_args == build_args,
        base matches Some(image) ==> {
            let data = started(base, build_args);
            &&& data.architecture == image.architecture@
            &&& data.os == image.os@
            &&& data.layers == image.layers.deep_view()
            &&& data.diff_ids == image.diff_ids.deep_view()
            &&& image.history matches Some(history) ==> data.history == history.deep_view()
            &&& image.history is None ==> data.history.len() == 0
            &&& image.config matches Some(config) ==> {
                &&& data.config == config.deep_view()
                &&& config.env matches Some(entries) ==> data.environment == env_of(
                    entries.deep_view(),
                )
                &&& config.env is None ==> data.environment == Map::<Seq<char>, Seq<char>>::empty()
                &&& config.shell matches Some(words) ==> data.shell == words.deep_view()
                &&& config.shell is None ==> data.shell == seq!["/bin/sh"@, "-c"@]
                &&& config.working_dir matches Some(path) ==> data.workdir == path@
                &&& config.working_dir is None ==> data.workdir == "/"@
            }
            &&& image.config is None ==> data.environment == Map::<Seq<char>, Seq<char>>::empty()
                && data.shell == seq!["/bin/sh"@, "-c"@] && data.workdir == "/"@
        },
        base is None ==> {
            let data = started(base, build_args);
            &&& data.architecture == "amd64"@
            &&& data.os == "linux"@
            &&& data.layers.len() == 0
            &&& data.diff_ids.len() == 0
            &&& data.history.len() == 0
            &&& data.environment == Map::<Seq<char>, Seq<char>>::empty()
            &&& data.shell == seq!["/bin/sh"@, "-c"@]
            &&& data.workdir == "/"@
            &&& data.config.user is None && data.config.exposed_ports is None
                && data.config.env is None && data.config.entrypoint is None
                && data.config.cmd is None && data.config.volumes is None
                && data.config.labels is None
        },
{
}

/// A finished image is what the stage came to: its platform, the digests and the history
/// of all steps, the settings as they were last set, and the layers that have a digest, in
/// their order, with the sum of their sizes.
pub proof fn images_are_what_the_stage_came_to(data: StageData, created: Seq<char>)
    ensures
        ({
            let image = finished(data, created);
            &&& image.config.architecture == data.architecture
            &&& image.config.os == data.os
            &&& image.config.diff_ids == data.diff_ids
            &&& image.config.history == Some(data.history)
            &&& image.config.created == Some(created)
            &&& image.config.author == Some("qbuild"@)
            &&& image.config.fs_type == "layers"@
            &&& image.config.config matches Some(config) && {
                &&& config.user == data.config.user
                &&& config.exposed_ports == data.config.exposed_ports
                &&& config.env == Some(sorted_assignments(data.environment))
                &&& config.entrypoint == data.config.entrypoint
                &&& config.cmd == data.config.cmd
                &&& config.volumes == data.config.volumes
                &&& config.working_dir == Some(data.workdir)
                &&& config.labels == data.config.labels
                &&& config.shell == Some(data.shell)
            }
            &&& image.manifest.schema_version == 2
            &&& image.manifest.media_type == Some("application/vnd.oci.image.manifest.v1+json"@)
            &&& (forall|i: int|
                0 <= i < data.layers.len() ==> (#[trigger] data.layers[i]).digest.len() > 0)
                ==> image.manifest.layers == data.layers
            &&& forall|i: int|
                0 <= i < image.manifest.layers.len() ==> (
                #[trigger] image.manifest.layers[i]).digest.len() > 0
        }),
{
    let image = finished(data, created);
    let has_digest = |layer: DescriptorModel| layer.digest.len() > 0;
    if forall|i: int| 0 <= i < data.layers.len() ==> (#[trigger] data.layers[i]).digest.len() > 0 {
        lemma_filter_all(data.layers, has_digest);
    }
    assert forall|i: int| 0 <= i < image.manifest.layers.len() implies (
    #[trigger] image.manifest.layers[i]).digest.len() > 0 by {
        data.layers.lemma_filter_pred(has_digest, i);
    }
}

/// The size of an image grows by the size of each layer that is put on top.
pub proof fn sizes_grow_by_the_layer(data: StageData, layer: DescriptorModel, created: Seq<char>)
    ensures
        ({
            let more = StageData { layers: data.layers.push(layer), ..data };
            finished(more, created).total_size == finished(data, created).total_size + if
                layer.digest.len() > 0 {
                layer.size as int
            } else {
                0
            }
        }),
        finished(StageData { layers: seq![], ..data }, created).total_size == 0,
{
    reveal(Seq::filter);
    let more = data.layers.push(layer);
    assert(more.drop_last() =~= data.layers);
    assert(real_layers(more) == if layer.digest.len() > 0 {
        real_layers(data.layers).push(layer)
    } else {
        real_layers(data.layers)
    });
    assert(real_layers(data.layers).push(layer).drop_last() =~= real_layers(data.layers));
}

} // verus!
