use qbuild::error::AppError;
use qbuild::image::reference::ImageReference;
use qbuild::image::store::{FileRead, ImageError};
use qbuild::image::{Descriptor, MediaType, OciImageConfig, OciManifest, RootFs};
use qbuild::registry::auth::{
    challenge_parameter, read_login, registry_name, token_url, DockerLogin, RegistryAuth,
};
use qbuild::registry::client::{
    accepted_manifests, bearer, blob_url, check_blob, check_config, check_first_reply,
    check_layer, check_second_reply, check_stored_config, choose_manifest, find_platform,
    look_up_layer, manifest_digest, manifest_url, needs_body, start_events, LayerLookup,
    LayerOutcome, LayerTally, PlatformManifest, PullEvent, PullOptions, RegistryClient,
    RegistryError, Reply, RequestStep,
};

use qbuild::registry::pull::{
    after_manifest, ManifestBody, ManifestStep, PullAction, PullInput, PullState, PullStep,
    Resolved,
};
use qbuild::registry::push::{
    check_taken, upload_url, PushAction, PushInput, PushState, PushStep,
};
use qbuild::services::PushEvent;

const EMPTY: &str = "sha256:e3b0c44298fc1c149afbf4c8996fb92427ae41e4649b934ca495991b7852b855";

fn reply(status: u16) -> Reply {
    Reply {
        status,
        status_text: format!("{} Told", status),
        www_authenticate: None,
        retry_after: None,
        body: "body".to_string(),
    }
}

fn platform(architecture: &str, os: &str, digest: &str) -> PlatformManifest {
    PlatformManifest {
        architecture: architecture.to_string(),
        os: os.to_string(),
        digest: digest.to_string(),
    }
}

#[test]
fn test_pull_options_default() {
    let opts = PullOptions::default();
    assert!(!opts.force);
    assert_eq!(opts.max_concurrent, 0);
}

#[test]
fn at_least_one_layer_is_fetched_at_a_time() {
    assert_eq!(PullOptions::default().concurrency(), 1);
    assert_eq!(PullOptions { force: false, max_concurrent: 4 }.concurrency(), 4);
}

#[test]
fn clients_keep_credentials() {
    let mut client = RegistryClient::new("1.2.3", &Vec::new());
    assert_eq!(client.user_agent(), "quilt/1.2.3");
    assert!(client.auth().credentials("ghcr.io").is_none());
    client.set_registry_credentials("ghcr.io", "me", "first");
    client.set_registry_credentials("ghcr.io", "me", "second");
    let known = client.auth().credentials("ghcr.io").unwrap();
    assert_eq!((known.username.as_str(), known.password.as_str()), ("me", "second"));
    assert!(client.auth().credentials("docker.io").is_none());
}

#[test]
fn urls_name_what_is_asked() {
    let reference = ImageReference::parse("alpine:3").unwrap();
    assert_eq!(
        manifest_url(&reference),
        "https://registry-1.docker.io/v2/library/alpine/manifests/3"
    );
    assert_eq!(
        blob_url(&reference, "sha256:x"),
        "https://registry-1.docker.io/v2/library/alpine/blobs/sha256:x"
    );
    assert_eq!(
        accepted_manifests(),
        "application/vnd.oci.image.manifest.v1+json, application/vnd.oci.image.index.v1+json, application/vnd.docker.distribution.manifest.v2+json, application/vnd.docker.distribution.manifest.list.v2+json"
    );
    assert_eq!(
        MediaType::OciImageConfig.to_text(),
        "application/vnd.oci.image.config.v1+json"
    );
    assert_eq!(bearer("abc"), "Bearer abc");
}

#[test]
fn first_replies_are_judged() {
    assert!(matches!(check_first_reply("u", &reply(204)), Ok(RequestStep::Done)));
    let mut challenge = reply(401);
    assert!(matches!(
        check_first_reply("u", &challenge),
        Err(RegistryError::AuthError(message)) if message == "No WWW-Authenticate header"
    ));
    challenge.www_authenticate = Some("Bearer realm".to_string());
    assert!(matches!(
        check_first_reply("u", &challenge),
        Ok(RequestStep::Authenticate(text)) if text == "Bearer realm"
    ));
    assert!(matches!(
        check_first_reply("u", &reply(404)),
        Err(RegistryError::ManifestNotFound(url)) if url == "u"
    ));
    assert!(matches!(
        check_first_reply("u", &reply(429)),
        Err(RegistryError::InvalidResponse(message)) if message == "429 Told: body"
    ));
}

#[test]
fn second_replies_are_judged() {
    assert!(check_second_reply("u", &reply(200)).is_ok());
    assert!(matches!(
        check_second_reply("u", &reply(404)),
        Err(RegistryError::ManifestNotFound(url)) if url == "u"
    ));
    let mut limited = reply(429);
    assert!(matches!(check_second_reply("u", &limited), Err(RegistryError::RateLimited(60))));
    limited.retry_after = Some("7".to_string());
    assert!(matches!(check_second_reply("u", &limited), Err(RegistryError::RateLimited(7))));
    limited.retry_after = Some("soon".to_string());
    assert!(matches!(check_second_reply("u", &limited), Err(RegistryError::RateLimited(60))));
    assert!(matches!(
        check_second_reply("u", &reply(401)),
        Err(RegistryError::InvalidResponse(message)) if message == "401 Told: body"
    ));
}

#[test]
fn bodies_are_read_only_where_they_are_told() {
    assert!(!needs_body(200, false));
    assert!(!needs_body(404, false));
    assert!(!needs_body(401, false));
    assert!(needs_body(401, true));
    assert!(needs_body(429, false));
    assert!(!needs_body(429, true));
    assert!(needs_body(500, true));
}

#[test]
fn downloads_are_verified() {
    assert!(check_blob(EMPTY, b"").is_ok());
    assert!(check_config(EMPTY, b"").is_ok());
    assert!(check_layer(EMPTY, b"").is_ok());
    assert!(check_stored_config("a", "a").is_ok());
    let told = |result: Result<(), RegistryError>| match result {
        Err(RegistryError::InvalidResponse(message)) => message,
        _ => unreachable!(),
    };
    assert_eq!(
        told(check_blob("d", b"")),
        format!("Digest mismatch: expected d, got {}", EMPTY)
    );
    assert_eq!(
        told(check_config("d", b"")),
        format!("Config digest mismatch: expected d, got {}", EMPTY)
    );
    assert_eq!(
        told(check_layer("d", b"")),
        format!("Layer digest mismatch: expected d, got {}", EMPTY)
    );
    assert_eq!(
        told(check_stored_config("d", "e")),
        "Config stored digest mismatch: expected d, stored e"
    );
}

#[test]
fn manifest_digests_come_from_the_body() {
    let (digest, warning) = manifest_digest("r", None, b"");
    assert_eq!(digest, EMPTY);
    assert_eq!(warning, None);
    assert_eq!(manifest_digest("r", Some(EMPTY), b"").1, None);
    let (digest, warning) = manifest_digest("r", Some("sha256:x"), b"");
    assert_eq!(digest, EMPTY);
    assert_eq!(
        warning.unwrap(),
        format!(
            "warning: manifest digest header/body mismatch for r: header=sha256:x, computed={}",
            EMPTY
        )
    );
}

#[test]
fn platforms_are_chosen() {
    let list = vec![
        platform("arm64", "linux", "a"),
        platform("amd64", "linux", "b"),
        platform("amd64", "linux", "c"),
    ];
    assert_eq!(find_platform(&list, "amd64", "linux"), Some(1));
    assert_eq!(find_platform(&list, "amd64", "windows"), None);
    assert_eq!(choose_manifest(&list, "arm64", "linux").unwrap(), "a");
    assert_eq!(choose_manifest(&list, "riscv64", "linux").unwrap(), "b");
    assert!(matches!(
        choose_manifest(&vec![platform("arm64", "linux", "a")], "s390x", "linux"),
        Err(RegistryError::ManifestNotFound(message))
            if message == "No matching platform in manifest list"
    ));
}

#[test]
fn cached_layers_are_looked_up() {
    let intact = FileRead::Content(Vec::new());
    assert_eq!(look_up_layer(false, EMPTY, &intact), LayerLookup::Cached(0));
    assert_eq!(look_up_layer(true, EMPTY, &intact), LayerLookup::Download);
    assert_eq!(
        look_up_layer(false, "sha256:x", &intact),
        LayerLookup::RemoveAndDownload
    );
    assert_eq!(
        look_up_layer(false, EMPTY, &FileRead::Missing),
        LayerLookup::RemoveAndDownload
    );
}

#[test]
fn progress_is_told() {
    let reference = ImageReference::parse("alpine").unwrap();
    let events = start_events(&reference);
    assert_eq!(events.len(), 2);
    assert!(matches!(
        &events[0],
        PullEvent::Started { reference } if reference == "docker.io/library/alpine:latest"
    ));
    assert!(matches!(&events[1], PullEvent::ResolvingManifest));
    let mut tally = LayerTally::new(3);
    let first = LayerOutcome::Present { digest: "a".to_string(), size: 5, cached: true };
    assert!(tally.has_room(&first));
    let events = tally.record(&first);
    assert!(matches!(
        &events[0],
        PullEvent::DownloadingLayer { digest, current: 1, total: 3 } if digest == "a"
    ));
    assert!(matches!(
        &events[1],
        PullEvent::LayerDownloaded { digest, size: 5, cached: true } if digest == "a"
    ));
    let events = tally.record(&LayerOutcome::Failed(RegistryError::Other("bad".to_string())));
    assert_eq!(events.len(), 1);
    assert!(matches!(&events[0], PullEvent::Error { message } if message == "bad"));
    let second = LayerOutcome::Present { digest: "b".to_string(), size: u64::MAX - 5, cached: false };
    assert!(tally.has_room(&second));
    assert_eq!(tally.size(), 5);
    let events = tally.record(&LayerOutcome::Lost("gone".to_string()));
    assert!(matches!(
        &events[0],
        PullEvent::Error { message } if message == "Download task failed: gone"
    ));
    let large = LayerOutcome::Present { digest: "c".to_string(), size: u64::MAX, cached: false };
    assert!(!tally.has_room(&large));
}

#[test]
fn problems_are_put_into_words() {
    assert_eq!(
        RegistryError::RateLimited(60).to_text(),
        "Rate limited, retry after 60 seconds"
    );
    assert_eq!(
        AppError::Image(ImageError::BlobNotFound("d".to_string())).to_text(),
        "Blob not found: d"
    );
    assert_eq!(
        ImageError::ContentVerificationError { expected: "a".to_string(), actual: "b".to_string() }
            .to_text(),
        "Content verification failed: expected a, got b"
    );
    assert_eq!(ImageError::Io("io".to_string()).to_text(), "io");
    assert_eq!(
        AppError::Registry(RegistryError::AuthError("x".to_string())).to_text(),
        "Authentication failed: x"
    );
    assert_eq!(
        RegistryError::ManifestNotFound("x".to_string()).to_text(),
        "Manifest not found: x"
    );
    assert_eq!(
        RegistryError::InvalidResponse("x".to_string()).to_text(),
        "Invalid response: x"
    );
    assert_eq!(AppError::Message("m".to_string()).to_text(), "m");
    assert_eq!(AppError::Json("j".to_string()).to_text(), "j");
    assert_eq!(AppError::Io { not_found: true, message: "i".to_string() }.to_text(), "i");
}

fn resolved(config: &str, layers: &[&str]) -> Resolved {
    Resolved {
        manifest: OciManifest {
            schema_version: 2,
            media_type: None,
            config: Descriptor::plain(MediaType::OciImageConfig, config.to_string(), 0),
            layers: layers
                .iter()
                .map(|digest| Descriptor::plain(MediaType::OciLayerGzip, digest.to_string(), 1))
                .collect(),
            annotations: None,
        },
        digest: "manifest".to_string(),
    }
}

fn image_config() -> OciImageConfig {
    OciImageConfig {
        architecture: "amd64".to_string(),
        os: "linux".to_string(),
        os_version: None,
        config: None,
        rootfs: RootFs { fs_type: "layers".to_string(), diff_ids: Vec::new() },
        history: None,
        created: None,
        author: None,
    }
}

fn stored_config(digest: &str) -> PullInput {
    PullInput::ConfigStored { config: image_config(), digest: digest.to_string() }
}

fn present(digest: &str, size: u64, cached: bool) -> LayerOutcome {
    LayerOutcome::Present { digest: digest.to_string(), size, cached }
}

fn advance(step: PullStep, input: PullInput) -> PullStep {
    step.state.step(&ImageReference::parse("alpine").unwrap(), input)
}

fn fetching_layers(layers: &[&str]) -> PullStep {
    let reference = ImageReference::parse("alpine").unwrap();
    let step = PullState::Resolving
        .step(&reference, PullInput::ManifestResolved(resolved(EMPTY, layers)));
    let step = advance(step, PullInput::ConfigFetched(Vec::new()));
    assert!(matches!(step.action, PullAction::StoreConfig));
    advance(step, stored_config(EMPTY))
}

#[test]
fn pulls_go_step_by_step() {
    let reference = ImageReference::parse("alpine").unwrap();
    let step = PullState::Resolving
        .step(&reference, PullInput::ManifestResolved(resolved(EMPTY, &["a", "b"])));
    assert!(matches!(
        &step.events[0],
        PullEvent::ManifestResolved { digest, layers: 2 } if digest == "manifest"
    ));
    assert!(matches!(&step.action, PullAction::FetchConfig(digest) if digest == EMPTY));
    let step = fetching_layers(&["a", "b"]);
    assert!(matches!(
        &step.action,
        PullAction::FetchLayers(digests) if digests == &vec!["a".to_string(), "b".to_string()]
    ));
    assert!(step.state.has_room(&present("a", 5, true)));
    let step = advance(step, PullInput::Layer(present("a", 5, true)));
    assert!(matches!(step.action, PullAction::AwaitLayer));
    assert_eq!(step.events.len(), 2);
    assert!(!step.state.has_room(&present("b", u64::MAX, false)));
    assert!(!step.state.has_room(&present("a", 6, false)));
    assert!(step.state.has_room(&present("b", 6, false)));
    assert!(step.state.has_room(&LayerOutcome::Lost("gone".to_string())));
    let step = advance(step, PullInput::Layer(present("b", 6, false)));
    assert!(matches!(step.action, PullAction::StoreManifest));
    let step = advance(step, PullInput::ManifestStored("stored".to_string()));
    assert!(matches!(&step.action, PullAction::StoreReference(digest) if digest == "stored"));
    let step = advance(step, PullInput::ReferenceStored);
    assert!(matches!(
        &step.events[0],
        PullEvent::Complete { digest, size: 11 } if digest == "manifest"
    ));
    match step.action {
        PullAction::Done(image) => {
            assert_eq!(image.digest, "stored");
            assert_eq!(image.size, 11);
            assert_eq!(image.manifest.layers.len(), 2);
            assert_eq!(image.reference.to_text(), "docker.io/library/alpine:latest");
        }
        _ => unreachable!(),
    }
}

#[test]
fn images_without_layers_are_pulled() {
    let step = fetching_layers(&[]);
    assert!(matches!(step.action, PullAction::StoreManifest));
}

#[test]
fn failing_pulls_end() {
    let step = advance(
        fetching_layers(&["a"]),
        PullInput::Layer(LayerOutcome::Lost("gone".to_string())),
    );
    assert!(matches!(step.state, PullState::Ended));
    assert!(matches!(
        &step.action,
        PullAction::Fail(RegistryError::InvalidResponse(message))
            if message == "Download task failed: gone"
    ));
    let step = advance(
        fetching_layers(&["a"]),
        PullInput::Layer(LayerOutcome::Failed(RegistryError::RateLimited(3))),
    );
    assert!(matches!(
        &step.events[0],
        PullEvent::Error { message } if message == "Rate limited, retry after 3 seconds"
    ));
    assert!(matches!(&step.action, PullAction::Fail(RegistryError::RateLimited(3))));
    let reference = ImageReference::parse("alpine").unwrap();
    let step =
        PullState::Resolving.step(&reference, PullInput::ManifestResolved(resolved("x", &[])));
    let step = advance(step, PullInput::ConfigFetched(Vec::new()));
    assert!(matches!(
        &step.action,
        PullAction::Fail(RegistryError::InvalidResponse(message))
            if message == &format!("Config digest mismatch: expected x, got {}", EMPTY)
    ));
    let step =
        PullState::Resolving.step(&reference, PullInput::ManifestResolved(resolved(EMPTY, &[])));
    let step = advance(step, PullInput::ConfigFetched(Vec::new()));
    let step = advance(step, stored_config("y"));
    assert!(matches!(
        &step.action,
        PullAction::Fail(RegistryError::InvalidResponse(message))
            if message == &format!("Config stored digest mismatch: expected {}, stored y", EMPTY)
    ));
}

#[test]
fn challenges_are_read() {
    let challenge = "Bearer realm=\"https://auth.example/token\",service=\"reg\",scope=\"repository:a/b:pull,push\"";
    assert_eq!(
        challenge_parameter(challenge, "scope").as_deref(),
        Some("repository:a/b:pull,push")
    );
    assert_eq!(
        token_url(challenge).as_deref(),
        Some("https://auth.example/token?service=reg&scope=repository:a/b:pull,push")
    );
    assert_eq!(
        token_url("Bearer realm=\"r\"").as_deref(),
        Some("r?service=")
    );
    assert_eq!(token_url("Basic"), None);
    assert_eq!(challenge_parameter("realm=\"open", "realm"), None);
}

fn login(server: &str, auth: Option<&str>, fields: Option<(&str, &str)>) -> DockerLogin {
    DockerLogin {
        server: server.to_string(),
        auth: auth.map(|text| text.to_string()),
        username: fields.map(|pair| pair.0.to_string()),
        password: fields.map(|pair| pair.1.to_string()),
    }
}

#[test]
fn logins_are_decoded() {
    let pair = |user: &str, word: &str| Some((user.to_string(), word.to_string()));
    assert_eq!(read_login("bWU6c2VjcmV0"), pair("me", "secret"));
    assert_eq!(read_login("bWU6YTpi"), pair("me", "a:b"));
    assert_eq!(read_login("bcOpOng="), pair("m\u{e9}", "x"));
    assert_eq!(read_login("Og=="), pair("", ""));
    assert_eq!(read_login(""), None);
    assert_eq!(read_login("bWU="), None);
    assert_eq!(read_login("bWU6c2VjcmV"), None);
    assert_eq!(read_login("Oh=="), None);
    assert_eq!(read_login("Og==Og=="), None);
    assert_eq!(read_login("OjqA"), None);
}

#[test]
fn servers_are_registries() {
    assert_eq!(registry_name("https://index.docker.io/v1/"), "docker.io");
    assert_eq!(registry_name("registry-1.docker.io"), "docker.io");
    assert_eq!(registry_name("ghcr.io"), "ghcr.io");
    assert_eq!(registry_name("http://localhost:5000/v2/x"), "localhost:5000");
}

#[test]
fn clients_know_what_docker_keeps() {
    let logins = vec![
        login("https://index.docker.io/v1/", Some("bWU6c2VjcmV0"), None),
        login("ghcr.io", None, Some(("you", "word"))),
        login("quay.io", Some("!"), Some(("they", "key"))),
        login("empty.io", Some(""), None),
    ];
    let client = RegistryClient::new("1", &logins);
    let known = |name: &str| {
        client
            .auth()
            .credentials(name)
            .map(|found| (found.username.clone(), found.password.clone()))
    };
    assert_eq!(known("docker.io"), Some(("me".to_string(), "secret".to_string())));
    assert_eq!(known("ghcr.io"), Some(("you".to_string(), "word".to_string())));
    assert_eq!(known("quay.io"), Some(("they".to_string(), "key".to_string())));
    assert_eq!(known("empty.io"), None);
    assert!(RegistryAuth::from_docker(&Vec::new()).credentials("docker.io").is_none());
}

#[test]
fn uploads_go_where_the_registry_says() {
    assert_eq!(upload_url("https://r", "/v2/x/1", "sha256:a"), "https://r/v2/x/1?digest=sha256:a");
    assert_eq!(
        upload_url("https://r", "https://s/u?state=1", "sha256:a"),
        "https://s/u?state=1&digest=sha256:a"
    );
    assert!(check_taken(201, "").is_ok());
    assert!(matches!(
        check_taken(400, "bad"),
        Err(RegistryError::InvalidResponse(message)) if message == "400: bad"
    ));
}

fn pushed(step: PushStep, input: PushInput) -> PushStep {
    assert!(step.state.is_expected(input));
    step.state.step(input)
}

#[test]
fn pushes_go_step_by_step() {
    let reference = ImageReference::parse("ghcr.io/me/app:v1").unwrap();
    let manifest = resolved("config", &["layer"]).manifest;
    let step = PushState::start(&reference, &manifest, "sha256:m");
    assert!(matches!(
        &step.events[0],
        PushEvent::Started { reference } if reference == "ghcr.io/me/app:v1"
    ));
    assert!(matches!(&step.action, PushAction::Ask(blob) if blob == "config"));
    assert!(!step.state.is_expected(PushInput::Uploaded));
    let step = pushed(step, PushInput::Found);
    assert!(matches!(&step.events[0], PushEvent::BlobMounted { digest } if digest == "config"));
    assert!(matches!(&step.action, PushAction::Ask(blob) if blob == "layer"));
    let step = pushed(step, PushInput::Absent);
    assert!(step.events.is_empty());
    assert!(matches!(&step.action, PushAction::Read(blob) if blob == "layer"));
    let step = pushed(step, PushInput::Read(7));
    assert!(matches!(
        &step.events[0],
        PushEvent::UploadingBlob { digest, size: 7 } if digest == "layer"
    ));
    assert!(matches!(&step.action, PushAction::Upload(blob) if blob == "layer"));
    let step = pushed(step, PushInput::Uploaded);
    assert!(matches!(
        &step.events[0],
        PushEvent::BlobUploaded { digest, size: 7 } if digest == "layer"
    ));
    assert!(matches!(step.action, PushAction::PutManifest));
    let step = pushed(step, PushInput::ManifestTaken);
    assert!(matches!(
        &step.events[0],
        PushEvent::ManifestUploaded { digest } if digest == "sha256:m"
    ));
    assert!(matches!(
        &step.events[1],
        PushEvent::Complete { reference, digest }
            if reference == "ghcr.io/me/app:v1" && digest == "sha256:m"
    ));
    assert!(matches!(step.action, PushAction::Done));
    assert!(!step.state.is_expected(PushInput::ManifestTaken));
}

#[test]
fn lists_lead_to_one_more_manifest() {
    let reference = ImageReference::parse("alpine:3").unwrap();
    let single = ManifestBody::Single(resolved("config", &["layer"]).manifest);
    match after_manifest(&reference, b"", single, "amd64", "linux") {
        Ok(ManifestStep::Resolved(found)) => {
            assert_eq!(found.digest, EMPTY);
            assert_eq!(found.manifest.config.digest, "config");
        }
        _ => unreachable!(),
    }
    let list = || vec![platform("amd64", "linux", "x"), platform("arm64", "linux", "y")];
    match after_manifest(&reference, b"", ManifestBody::List(list()), "arm64", "linux") {
        Ok(ManifestStep::Fetch(next)) => {
            assert_eq!(next.to_text(), "docker.io/library/alpine@y");
            assert_eq!(next.tag, "3");
        }
        _ => unreachable!(),
    }
    assert!(matches!(
        after_manifest(&reference, b"", ManifestBody::List(Vec::new()), "arm64", "linux"),
        Err(RegistryError::ManifestNotFound(_))
    ));
}
