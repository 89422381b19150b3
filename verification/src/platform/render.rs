//! What a command's answer looks like on the terminal.
use crate::cli::Commands;
use crate::containers::SummaryModel;
use crate::number::{decimal, decimal_text};
use crate::protocol::{request_of, CommandRequest, ContainerSummaryOutput, GuestResponse};
use crate::protocol::{BuildOutput, GuestEvent, ImageReferenceOutput, InspectOutput, PullOutput};
use crate::protocol::PushOutput;
use crate::text::{begins, ends, glue, glue3, glue5, inner_texts_occur, occurs};
use vstd::prelude::*;

verus! {

/// What is done with an answer.
#[derive(Debug)]
pub enum Rendering {
    /// The text is printed as it is.
    Text(String),
    /// What the answer carries is printed as JSON.
    Json,
    /// The program ends with this exit code.
    Exit(i32),
}

/// A [`Rendering`] as a mathematical value.
#[verifier::ext_equal]
pub enum RenderingModel {
    Text(Seq<char>),
    Json,
    Exit(i32),
}

impl DeepView for Rendering {
    type V = RenderingModel;

    open spec fn deep_view(&self) -> RenderingModel {
        match self {
            Rendering::Text(text) => RenderingModel::Text(text@),
            Rendering::Json => RenderingModel::Json,
            Rendering::Exit(code) => RenderingModel::Exit(*code),
        }
    }
}

/// A line: a label and a value.
pub open spec fn line(label: Seq<char>, value: Seq<char>) -> Seq<char> {
    label + value + "\n"@
}

/// A line for a directory that was given.
pub open spec fn store_line(store_dir: Option<String>) -> Seq<char> {
    match store_dir {
        Some(path) => line("Store: "@, path@),
        None => ""@,
    }
}

/// A line for a directory that was given.
fn store_text(store_dir: &Option<String>) -> (text: String)
    ensures
        text@ == store_line(*store_dir),
{
    match store_dir {
        Some(path) => glue3("Store: ", path, "\n"),
        None => "".to_string(),
    }
}

/// What is told of a build.
pub open spec fn build_text(output: BuildOutput, store_dir: Option<String>) -> Seq<char> {
    line("Built "@, output.image_reference@) + line("Manifest: "@, output.manifest_digest@) + line(
        "Config: "@,
        output.config_digest@,
    ) + store_line(store_dir) + line("Size: "@, decimal(output.size_bytes as nat) + " bytes"@)
}

fn render_build(output: &BuildOutput, store_dir: &Option<String>) -> (text: String)
    ensures
        text@ == build_text(*output, *store_dir),
{
    glue5(
        &glue3("Built ", &output.image_reference, "\n"),
        &glue3("Manifest: ", &output.manifest_digest, "\n"),
        &glue3("Config: ", &output.config_digest, "\n"),
        &store_text(store_dir),
        &glue3("Size: ", &glue(&decimal_text(output.size_bytes), " bytes"), "\n"),
    )
}

/// What is told of a pull.
pub open spec fn pull_text(output: PullOutput, store_dir: Option<String>) -> Seq<char> {
    line("Pulled "@, output.reference@) + line("Manifest: "@, output.manifest_digest@) + line(
        "Config: "@,
        output.config_digest@,
    ) + line("Layers: "@, decimal(output.layers as nat)) + store_line(store_dir)
}

fn render_pull(output: &PullOutput, store_dir: &Option<String>) -> (text: String)
    ensures
        text@ == pull_text(*output, *store_dir),
{
    glue5(
        &glue3("Pulled ", &output.reference, "\n"),
        &glue3("Manifest: ", &output.manifest_digest, "\n"),
        &glue3("Config: ", &output.config_digest, "\n"),
        &glue3("Layers: ", &decimal_text(output.layers as u64), "\n"),
        &store_text(store_dir),
    )
}

/// What is told of a push.
pub open spec fn push_text(output: PushOutput) -> Seq<char> {
    line("Pushed "@, output.reference@) + line("Manifest: "@, output.manifest_digest@)
}

fn render_push(output: &PushOutput) -> (text: String)
    ensures
        text@ == push_text(*output),
{
    glue(
        &glue3("Pushed ", &output.reference, "\n"),
        &glue3("Manifest: ", &output.manifest_digest, "\n"),
    )
}

/// What is told of an image.
pub open spec fn inspect_text(output: InspectOutput) -> Seq<char> {
    line("Reference: "@, output.reference@) + line("Manifest: "@, output.manifest_digest@) + line(
        "Config: "@,
        output.config_digest@,
    ) + line("Platform: "@, output.os@ + "/"@ + output.architecture@) + line(
        "Layers: "@,
        decimal(output.layers as nat),
    ) + line("Size: "@, decimal(output.size_bytes as nat) + " bytes"@)
}

fn render_inspect(output: &InspectOutput) -> (text: String)
    ensures
        text@ == inspect_text(*output),
{
    let head = glue5(
        &glue3("Reference: ", &output.reference, "\n"),
        &glue3("Manifest: ", &output.manifest_digest, "\n"),
        &glue3("Config: ", &output.config_digest, "\n"),
        &glue3("Platform: ", &glue3(&output.os, "/", &output.architecture), "\n"),
        &glue3("Layers: ", &decimal_text(output.layers as u64), "\n"),
    );
    glue(&head, &glue3("Size: ", &glue(&decimal_text(output.size_bytes), " bytes"), "\n"))
}

/// The line of a container: its name, image, state and process, between tabs.
pub open spec fn container_line(container: SummaryModel) -> Seq<char> {
    container.id + "\t"@ + container.image_reference + "\t"@ + container.state.name() + "\t"@ + (
    match container.pid {
        Some(pid) => decimal(pid as nat),
        None => ""@,
    }) + "\n"@
}

/// The lines of the first `count` containers.
pub open spec fn container_lines(containers: Seq<SummaryModel>, count: int) -> Seq<char>
    decreases count,
{
    if count <= 0 {
        seq![]
    } else {
        container_lines(containers, count - 1) + container_line(containers[count - 1])
    }
}

fn render_containers(containers: &Vec<ContainerSummaryOutput>) -> (text: String)
    ensures
        text@ == container_lines(containers.deep_view(), containers@.len() as int),
{
    let ghost all = containers.deep_view();
    let mut text = String::new();
    let mut at: usize = 0;
    assert(text@ =~= seq![]);
    while at < containers.len()
        invariant
            at <= containers@.len(),
            containers.deep_view() == all,
            text@ == container_lines(all, at as int),
        decreases containers@.len() - at,
    {
        let container = &containers[at];
        assert(all[at as int] == container.deep_view());
        let pid = match container.pid {
            Some(pid) => decimal_text(pid as u64),
            None => "".to_string(),
        };
        let head = glue5(
            &container.id,
            "\t",
            &container.image_reference,
            "\t",
            &container.state.to_text(),
        );
        let row = glue3(&glue3(&head, "\t", &pid), "\n", "");
        proof {
            reveal_strlit("");
            assert(row@ =~= container_line(all[at as int]));
        }
        text.append(&row);
        at = at + 1;
    }
    text
}

/// The line of an image: its reference and manifest, between tabs.
pub open spec fn image_line(image: (Seq<char>, Seq<char>)) -> Seq<char> {
    image.0 + "\t"@ + image.1 + "\n"@
}

/// The lines of the first `count` images.
pub open spec fn image_lines(images: Seq<(Seq<char>, Seq<char>)>, count: int) -> Seq<char>
    decreases count,
{
    if count <= 0 {
        seq![]
    } else {
        image_lines(images, count - 1) + image_line(images[count - 1])
    }
}

/// What is told of the images.
pub open spec fn images_text(images: Seq<(Seq<char>, Seq<char>)>) -> Seq<char> {
    if images.len() == 0 {
        "No local images\n"@
    } else {
        image_lines(images, images.len() as int)
    }
}

fn render_images(images: &Vec<ImageReferenceOutput>) -> (text: String)
    ensures
        text@ == images_text(images.deep_view()),
{
    let ghost all = images.deep_view();
    assert(all.len() == images@.len());
    if images.len() == 0 {
        return "No local images\n".to_string();
    }
    let mut text = String::new();
    let mut at: usize = 0;
    assert(text@ =~= seq![]);
    while at < images.len()
        invariant
            at <= images@.len(),
            images.deep_view() == all,
            text@ == image_lines(all, at as int),
        decreases images@.len() - at,
    {
        assert(all[at as int] == images@[at as int].deep_view());
        let row = glue(
            &glue3(&images[at].reference, "\t", &images[at].manifest_digest),
            "\n",
        );
        text.append(&row);
        at = at + 1;
    }
    text
}

/// The name of an answer.
pub open spec fn name_of(response: GuestResponse) -> Seq<char> {
    match response {
        GuestResponse::Pong => "pong"@,
        GuestResponse::Build(_) => "build"@,
        GuestResponse::Pull(_) => "pull"@,
        GuestResponse::Push(_) => "push"@,
        GuestResponse::Run(_) => "run"@,
        GuestResponse::Create(_) => "create"@,
        GuestResponse::Start(_) => "start"@,
        GuestResponse::Stop(_) => "stop"@,
        GuestResponse::Removed(_) => "rm"@,
        GuestResponse::Ps(_) => "ps"@,
        GuestResponse::Logs(_) => "logs"@,
        GuestResponse::Inspect(_) => "inspect"@,
        GuestResponse::List(_) => "list"@,
    }
}

/// The name of an answer.
pub fn response_name(response: &GuestResponse) -> (name: &'static str)
    ensures
        name@ == name_of(*response),
{
    match response {
        GuestResponse::Pong => "pong",
        GuestResponse::Build(_) => "build",
        GuestResponse::Pull(_) => "pull",
        GuestResponse::Push(_) => "push",
        GuestResponse::Run(_) => "run",
        GuestResponse::Create(_) => "create",
        GuestResponse::Start(_) => "start",
        GuestResponse::Stop(_) => "stop",
        GuestResponse::Removed(_) => "rm",
        GuestResponse::Ps(_) => "ps",
        GuestResponse::Logs(_) => "logs",
        GuestResponse::Inspect(_) => "inspect",
        GuestResponse::List(_) => "list",
    }
}

/// JSON, or a text.
pub open spec fn json_or(json: bool, text: Seq<char>) -> RenderingModel {
    if json {
        RenderingModel::Json
    } else {
        RenderingModel::Text(text)
    }
}

/// What is done with an answer to a request.
pub open spec fn rendered(request: CommandRequest, response: GuestResponse) -> Result<
    RenderingModel,
    Seq<char>,
> {
    match (request, response) {
        (CommandRequest::Ping, GuestResponse::Pong) => Ok(RenderingModel::Text("pong\n"@)),
        (CommandRequest::Build(cmd), GuestResponse::Build(output)) => Ok(
            json_or(cmd.json, build_text(output, cmd.store_dir)),
        ),
        (CommandRequest::Pull(cmd), GuestResponse::Pull(output)) => Ok(
            json_or(cmd.json, pull_text(output, cmd.store_dir)),
        ),
        (CommandRequest::Push(cmd), GuestResponse::Push(output)) => Ok(
            json_or(cmd.json, push_text(output)),
        ),
        (CommandRequest::Run(_), GuestResponse::Run(output)) => Ok(
            if output.exit_code != 0 {
                RenderingModel::Exit(output.exit_code)
            } else {
                RenderingModel::Text(""@)
            },
        ),
        (CommandRequest::Create(_), GuestResponse::Create(output)) => Ok(
            RenderingModel::Text(output.id@ + "\n"@),
        ),
        (CommandRequest::Start(_), GuestResponse::Start(output)) => Ok(
            RenderingModel::Text(output.id@ + " "@ + decimal(output.pid as nat) + "\n"@),
        ),
        (CommandRequest::Stop(_), GuestResponse::Stop(output)) => Ok(
            RenderingModel::Text(output.id@ + "\n"@),
        ),
        (CommandRequest::Rm(_), GuestResponse::Removed(_)) => Ok(RenderingModel::Text(""@)),
        (CommandRequest::Ps(cmd), GuestResponse::Ps(output)) => Ok(
            json_or(
                cmd.json,
                container_lines(output.containers.deep_view(), output.containers@.len() as int),
            ),
        ),
        (CommandRequest::Logs(_), GuestResponse::Logs(output)) => Ok(
            RenderingModel::Text(output.contents@),
        ),
        (CommandRequest::Inspect(cmd), GuestResponse::Inspect(output)) => Ok(
            json_or(cmd.json, inspect_text(output)),
        ),
        (CommandRequest::List(cmd), GuestResponse::List(output)) => Ok(
            json_or(cmd.json, images_text(output.images.deep_view())),
        ),
        (_, other) => Err(
            "guest returned an unexpected response for request: \""@ + name_of(other) + "\""@,
        ),
    }
}

/// What is done with an answer to a request.
pub fn render_response(request: &CommandRequest, response: &GuestResponse) -> (result: Result<
    Rendering,
    String,
>)
    ensures
        crate::text::outcome(result) == rendered(*request, *response),
{
    match (request, response) {
        (CommandRequest::Ping, GuestResponse::Pong) => Ok(Rendering::Text("pong\n".to_string())),
        (CommandRequest::Build(cmd), GuestResponse::Build(output)) => if cmd.json {
            Ok(Rendering::Json)
        } else {
            Ok(Rendering::Text(render_build(output, &cmd.store_dir)))
        },
        (CommandRequest::Pull(cmd), GuestResponse::Pull(output)) => if cmd.json {
            Ok(Rendering::Json)
        } else {
            Ok(Rendering::Text(render_pull(output, &cmd.store_dir)))
        },
        (CommandRequest::Push(cmd), GuestResponse::Push(output)) => if cmd.json {
            Ok(Rendering::Json)
        } else {
            Ok(Rendering::Text(render_push(output)))
        },
        (CommandRequest::Run(_), GuestResponse::Run(output)) => if output.exit_code != 0 {
            Ok(Rendering::Exit(output.exit_code))
        } else {
            Ok(Rendering::Text("".to_string()))
        },
        (CommandRequest::Create(_), GuestResponse::Create(output)) => Ok(
            Rendering::Text(glue(&output.id, "\n")),
        ),
        (CommandRequest::Start(_), GuestResponse::Start(output)) => Ok(
            Rendering::Text(
                glue(&glue3(&output.id, " ", &decimal_text(output.pid as u64)), "\n"),
            ),
        ),
        (CommandRequest::Stop(_), GuestResponse::Stop(output)) => Ok(
            Rendering::Text(glue(&output.id, "\n")),
        ),
        (CommandRequest::Rm(_), GuestResponse::Removed(_)) => Ok(
            Rendering::Text("".to_string()),
        ),
        (CommandRequest::Ps(cmd), GuestResponse::Ps(output)) => if cmd.json {
            Ok(Rendering::Json)
        } else {
            Ok(Rendering::Text(render_containers(&output.containers)))
        },
        (CommandRequest::Logs(_), GuestResponse::Logs(output)) => Ok(
            Rendering::Text(output.contents.clone()),
        ),
        (CommandRequest::Inspect(cmd), GuestResponse::Inspect(output)) => if cmd.json {
            Ok(Rendering::Json)
        } else {
            Ok(Rendering::Text(render_inspect(output)))
        },
        (CommandRequest::List(cmd), GuestResponse::List(output)) => if cmd.json {
            Ok(Rendering::Json)
        } else {
            Ok(Rendering::Text(render_images(&output.images)))
        },
        (_, other) => Err(
            glue3(
                "guest returned an unexpected response for request: \"",
                response_name(other),
                "\"",
            ),
        ),
    }
}

/// The request that a command stands for.
pub fn command_to_request(command: Commands) -> (result: Result<CommandRequest, String>)
    ensures
        match request_of(command) {
            Some(request) => result == Ok::<CommandRequest, String>(request),
            None => result matches Err(message) && message@
                == "command is not part of the guest RPC surface"@,
        },
{
    CommandRequest::from_command(command)
}

/// What is told when something happens.
pub fn event_text(event: &GuestEvent) -> (text: String)
    ensures
        text@ == match *event {
            GuestEvent::Status(message) => message@,
        },
{
    match event {
        GuestEvent::Status(message) => message.clone(),
    }
}

/// The answer belongs to the request.
pub open spec fn answers(request: CommandRequest, response: GuestResponse) -> bool {
    match request {
        CommandRequest::Ping => response is Pong,
        CommandRequest::Build(_) => response is Build,
        CommandRequest::Pull(_) => response is Pull,
        CommandRequest::Push(_) => response is Push,
        CommandRequest::Run(_) => response is Run,
        CommandRequest::Create(_) => response is Create,
        CommandRequest::Start(_) => response is Start,
        CommandRequest::Stop(_) => response is Stop,
        CommandRequest::Rm(_) => response is Removed,
        CommandRequest::Ps(_) => response is Ps,
        CommandRequest::Logs(_) => response is Logs,
        CommandRequest::Inspect(_) => response is Inspect,
        CommandRequest::List(_) => response is List,
    }
}

/// An answer is shown if and only if it belongs to the request, and only a run ends
/// the program with an exit code of its own.
pub proof fn only_matching_answers_are_shown(request: CommandRequest, response: GuestResponse)
    ensures
        rendered(request, response) is Ok <==> answers(request, response),
        rendered(request, response) matches Ok(rendering) ==> (rendering is Exit ==> request is Run
            && response is Run),
{
}

// ---------------------------------------------------------------------------
// Laws of texts
// ---------------------------------------------------------------------------
/// A line of a text occurs in it as a whole.
proof fn lemma_line_occurs(front: Seq<char>, label: Seq<char>, value: Seq<char>, back: Seq<char>)
    ensures
        occurs(front + line(label, value) + back, label + value + "\n"@),
{
    inner_texts_occur(front, line(label, value), back);
}

/// A build is told in full: the image by its reference, and a line each for the digest of
/// its manifest, the digest of its configuration, its size, and the store where one was
/// given.
pub proof fn builds_are_told_in_full(output: BuildOutput, store_dir: Option<String>)
    ensures
        begins(build_text(output, store_dir), "Built "@ + output.image_reference@ + "\n"@),
        occurs(
            build_text(output, store_dir),
            "Manifest: "@ + output.manifest_digest@ + "\n"@,
        ),
        occurs(build_text(output, store_dir), "Config: "@ + output.config_digest@ + "\n"@),
        store_dir matches Some(path) ==> occurs(
            build_text(output, store_dir),
            "Store: "@ + path@ + "\n"@,
        ),
        ends(
            build_text(output, store_dir),
            "Size: "@ + (decimal(output.size_bytes as nat) + " bytes"@) + "\n"@,
        ),
{
    let text = build_text(output, store_dir);
    let first = line("Built "@, output.image_reference@);
    let second = line("Manifest: "@, output.manifest_digest@);
    let third = line("Config: "@, output.config_digest@);
    let fourth = store_line(store_dir);
    let last = line("Size: "@, decimal(output.size_bytes as nat) + " bytes"@);
    assert(text.take(first.len() as int) =~= first);
    lemma_line_occurs(first, "Manifest: "@, output.manifest_digest@, third + fourth + last);
    assert(text =~= first + second + (third + fourth + last));
    lemma_line_occurs(first + second, "Config: "@, output.config_digest@, fourth + last);
    assert(text =~= first + second + third + (fourth + last));
    if let Some(path) = store_dir {
        lemma_line_occurs(first + second + third, "Store: "@, path@, last);
    }
    assert(text.skip(text.len() - last.len()) =~= last);
}

/// A pull is told in full: the image by its reference, and a line each for the digest of
/// its manifest, the digest of its configuration, the number of its layers, and the store
/// where one was given.
pub proof fn pulls_are_told_in_full(output: PullOutput, store_dir: Option<String>)
    ensures
        begins(pull_text(output, store_dir), "Pulled "@ + output.reference@ + "\n"@),
        occurs(pull_text(output, store_dir), "Manifest: "@ + output.manifest_digest@ + "\n"@),
        occurs(pull_text(output, store_dir), "Config: "@ + output.config_digest@ + "\n"@),
        occurs(
            pull_text(output, store_dir),
            "Layers: "@ + decimal(output.layers as nat) + "\n"@,
        ),
        store_dir matches Some(path) ==> ends(
            pull_text(output, store_dir),
            "Store: "@ + path@ + "\n"@,
        ),
{
    let text = pull_text(output, store_dir);
    let first = line("Pulled "@, output.reference@);
    let second = line("Manifest: "@, output.manifest_digest@);
    let third = line("Config: "@, output.config_digest@);
    let fourth = line("Layers: "@, decimal(output.layers as nat));
    let last = store_line(store_dir);
    assert(text.take(first.len() as int) =~= first);
    lemma_line_occurs(first, "Manifest: "@, output.manifest_digest@, third + fourth + last);
    assert(text =~= first + second + (third + fourth + last));
    lemma_line_occurs(first + second, "Config: "@, output.config_digest@, fourth + last);
    assert(text =~= first + second + third + (fourth + last));
    lemma_line_occurs(first + second + third, "Layers: "@, decimal(output.layers as nat), last);
    assert(text.skip(text.len() - last.len()) =~= last);
}

/// A push is told by the reference and the digest of the manifest.
pub proof fn pushes_are_told_in_full(output: PushOutput)
    ensures
        begins(push_text(output), "Pushed "@ + output.reference@ + "\n"@),
        ends(push_text(output), "Manifest: "@ + output.manifest_digest@ + "\n"@),
{
    let text = push_text(output);
    let first = line("Pushed "@, output.reference@);
    let last = line("Manifest: "@, output.manifest_digest@);
    assert(text.take(first.len() as int) =~= first);
    assert(text.skip(text.len() - last.len()) =~= last);
}

/// An image is told in full: its reference, the digests of its manifest and its
/// configuration, its platform, the number of its layers, and its size.
pub proof fn images_are_told_in_full(output: InspectOutput)
    ensures
        begins(inspect_text(output), "Reference: "@ + output.reference@ + "\n"@),
        occurs(inspect_text(output), "Manifest: "@ + output.manifest_digest@ + "\n"@),
        occurs(inspect_text(output), "Config: "@ + output.config_digest@ + "\n"@),
        occurs(
            inspect_text(output),
            "Platform: "@ + (output.os@ + "/"@ + output.architecture@) + "\n"@,
        ),
        occurs(inspect_text(output), "Layers: "@ + decimal(output.layers as nat) + "\n"@),
        ends(
            inspect_text(output),
            "Size: "@ + (decimal(output.size_bytes as nat) + " bytes"@) + "\n"@,
        ),
{
    let text = inspect_text(output);
    let platform = output.os@ + "/"@ + output.architecture@;
    let first = line("Reference: "@, output.reference@);
    let second = line("Manifest: "@, output.manifest_digest@);
    let third = line("Config: "@, output.config_digest@);
    let fourth = line("Platform: "@, platform);
    let fifth = line("Layers: "@, decimal(output.layers as nat));
    let last = line("Size: "@, decimal(output.size_bytes as nat) + " bytes"@);
    assert(text.take(first.len() as int) =~= first);
    lemma_line_occurs(
        first,
        "Manifest: "@,
        output.manifest_digest@,
        third + fourth + fifth + last,
    );
    assert(text =~= first + second + (third + fourth + fifth + last));
    lemma_line_occurs(first + second, "Config: "@, output.config_digest@, fourth + fifth + last);
    assert(text =~= first + second + third + (fourth + fifth + last));
    lemma_line_occurs(first + second + third, "Platform: "@, platform, fifth + last);
    assert(text =~= first + second + third + fourth + (fifth + last));
    lemma_line_occurs(
        first + second + third + fourth,
        "Layers: "@,
        decimal(output.layers as nat),
        last,
    );
    assert(text.skip(text.len() - last.len()) =~= last);
}

/// A listing has one line for each container or image, in their order: of a container its
/// name, image, state and process, of an image its reference and manifest, with a tab
/// between each two. Where there is no image, that is said.
pub proof fn listings_have_a_line_each(
    containers: Seq<SummaryModel>,
    container: SummaryModel,
    images: Seq<(Seq<char>, Seq<char>)>,
    image: (Seq<char>, Seq<char>),
)
    ensures
        container_lines(containers.push(container), (containers.len() + 1) as int) == container_lines(
            containers,
            containers.len() as int,
        ) + container_line(container),
        container.pid matches Some(pid) ==> container_line(container) == container.id + "\t"@
            + container.image_reference + "\t"@ + container.state.name() + "\t"@ + decimal(
            pid as nat,
        ) + "\n"@,
        container.pid is None ==> container_line(container) == container.id + "\t"@
            + container.image_reference + "\t"@ + container.state.name() + "\t"@ + "\n"@,
        images.len() == 0 ==> images_text(images) == "No local images\n"@ && images_text(
            images.push(image),
        ) == image.0 + "\t"@ + image.1 + "\n"@,
        images.len() > 0 ==> images_text(images.push(image)) == images_text(images) + (image.0
            + "\t"@ + image.1 + "\n"@),
{
    reveal_strlit("");
    let more = containers.push(container);
    lemma_same_containers(containers, more, containers.len() as int);
    let none = container.id + "\t"@ + container.image_reference + "\t"@ + container.state.name()
        + "\t"@;
    assert(none + ""@ =~= none);
    let longer = images.push(image);
    lemma_same_images(images, longer, images.len() as int);
    if images.len() == 0 {
        assert(Seq::<char>::empty() + image_line(image) =~= image_line(image));
    }
}

proof fn lemma_same_containers(one: Seq<SummaryModel>, other: Seq<SummaryModel>, count: int)
    requires
        count <= one.len(),
        count <= other.len(),
        forall|i: int| 0 <= i < count ==> one[i] == other[i],
    ensures
        container_lines(one, count) == container_lines(other, count),
    decreases count,
{
    if count > 0 {
        lemma_same_containers(one, other, count - 1);
    }
}

proof fn lemma_same_images(
    one: Seq<(Seq<char>, Seq<char>)>,
    other: Seq<(Seq<char>, Seq<char>)>,
    count: int,
)
    requires
        count <= one.len(),
        count <= other.len(),
        forall|i: int| 0 <= i < count ==> one[i] == other[i],
    ensures
        image_lines(one, count) == image_lines(other, count),
    decreases count,
{
    if count > 0 {
        lemma_same_images(one, other, count - 1);
    }
}

/// JSON is printed exactly where it was asked for, of a build, a pull, a push, a listing or
/// an inspection.
pub proof fn json_is_printed_where_asked(request: CommandRequest, response: GuestResponse)
    requires
        answers(request, response),
    ensures
        rendered(request, response) == Ok::<RenderingModel, Seq<char>>(RenderingModel::Json)
            <==> match request {
            CommandRequest::Build(cmd) => cmd.json,
            CommandRequest::Pull(cmd) => cmd.json,
            CommandRequest::Push(cmd) => cmd.json,
            CommandRequest::Ps(cmd) => cmd.json,
            CommandRequest::Inspect(cmd) => cmd.json,
            CommandRequest::List(cmd) => cmd.json,
            _ => false,
        },
{
}

/// What is printed is what the answer says: the text of what was done, the exit code of a
/// run that failed, the name of a container and the number of its process, or the log.
pub proof fn answers_are_printed(request: CommandRequest, response: GuestResponse)
    requires
        answers(request, response),
    ensures
        match (request, response) {
            (CommandRequest::Build(cmd), GuestResponse::Build(output)) => !cmd.json ==> rendered(
                request,
                response,
            ) == Ok::<RenderingModel, Seq<char>>(
                RenderingModel::Text(build_text(output, cmd.store_dir)),
            ),
            (CommandRequest::Pull(cmd), GuestResponse::Pull(output)) => !cmd.json ==> rendered(
                request,
                response,
            ) == Ok::<RenderingModel, Seq<char>>(
                RenderingModel::Text(pull_text(output, cmd.store_dir)),
            ),
            (CommandRequest::Push(cmd), GuestResponse::Push(output)) => !cmd.json ==> rendered(
                request,
                response,
            ) == Ok::<RenderingModel, Seq<char>>(RenderingModel::Text(push_text(output))),
            (CommandRequest::Inspect(cmd), GuestResponse::Inspect(output)) => !cmd.json
                ==> rendered(request, response) == Ok::<RenderingModel, Seq<char>>(
                RenderingModel::Text(inspect_text(output)),
            ),
            (CommandRequest::Ps(cmd), GuestResponse::Ps(output)) => !cmd.json ==> rendered(
                request,
                response,
            ) == Ok::<RenderingModel, Seq<char>>(
                RenderingModel::Text(
                    container_lines(
                        output.containers.deep_view(),
                        output.containers@.len() as int,
                    ),
                ),
            ),
            (CommandRequest::List(cmd), GuestResponse::List(output)) => !cmd.json ==> rendered(
                request,
                response,
            ) == Ok::<RenderingModel, Seq<char>>(
                RenderingModel::Text(images_text(output.images.deep_view())),
            ),
            (_, GuestResponse::Run(output)) => {
                &&& output.exit_code != 0 ==> rendered(request, response) == Ok::<
                    RenderingModel,
                    Seq<char>,
                >(RenderingModel::Exit(output.exit_code))
                &&& output.exit_code == 0 ==> rendered(request, response) == Ok::<
                    RenderingModel,
                    Seq<char>,
                >(RenderingModel::Text(""@))
            },
            (_, GuestResponse::Create(output)) => rendered(request, response) == Ok::<
                RenderingModel,
                Seq<char>,
            >(RenderingModel::Text(output.id@ + "\n"@)),
            (_, GuestResponse::Start(output)) => rendered(request, response) == Ok::<
                RenderingModel,
                Seq<char>,
            >(RenderingModel::Text(output.id@ + " "@ + decimal(output.pid as nat) + "\n"@)),
            (_, GuestResponse::Stop(output)) => rendered(request, response) == Ok::<
                RenderingModel,
                Seq<char>,
            >(RenderingModel::Text(output.id@ + "\n"@)),
            (_, GuestResponse::Logs(output)) => rendered(request, response) == Ok::<
                RenderingModel,
                Seq<char>,
            >(RenderingModel::Text(output.contents@)),
            (_, GuestResponse::Pong) => rendered(request, response) == Ok::<
                RenderingModel,
                Seq<char>,
            >(RenderingModel::Text("pong\n"@)),
            _ => true,
        },
{
}

/// An answer that does not belong to the request is refused under its own name.
pub proof fn strange_answers_are_named(request: CommandRequest, response: GuestResponse)
    ensures
        !answers(request, response) ==> (rendered(request, response) matches Err(message) && ends(
            message,
            "\""@ + name_of(response) + "\""@,
        )),
        match response {
            GuestResponse::Pong => name_of(response) == "pong"@,
            GuestResponse::Build(_) => name_of(response) == "build"@,
            GuestResponse::Pull(_) => name_of(response) == "pull"@,
            GuestResponse::Push(_) => name_of(response) == "push"@,
            GuestResponse::Run(_) => name_of(response) == "run"@,
            GuestResponse::Create(_) => name_of(response) == "create"@,
            GuestResponse::Start(_) => name_of(response) == "start"@,
            GuestResponse::Stop(_) => name_of(response) == "stop"@,
            GuestResponse::Removed(_) => name_of(response) == "rm"@,
            GuestResponse::Ps(_) => name_of(response) == "ps"@,
            GuestResponse::Logs(_) => name_of(response) == "logs"@,
            GuestResponse::Inspect(_) => name_of(response) == "inspect"@,
            GuestResponse::List(_) => name_of(response) == "list"@,
        },
{
    reveal_strlit("guest returned an unexpected response for request: \"");
    reveal_strlit("\"");
    let message = "guest returned an unexpected response for request: \""@ + name_of(response)
        + "\""@;
    let back = "\""@ + name_of(response) + "\""@;
    assert(message.skip(message.len() - back.len()) =~= back);
}

} // verus!
