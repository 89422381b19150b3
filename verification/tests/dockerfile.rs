use qbuild::build::run::{parse_exec_or_shell_command, requires_run, run_argv};
use qbuild::build::run::{verify_build_execution_requirements, RunCapabilities};
use qbuild::dockerfile::{
    array_strings, copy_words, env_words, from_words, instruction_lines, list_words, pair_words,
    parse_arg_instruction, parse_copy_instruction, parse_dockerfile, parse_env_instruction,
    parse_from_instruction, parse_instruction, parse_json_array, parse_key_value_pairs,
    split_keyword,
};
use qbuild::instruction::Instruction;
use qbuild::interpolation::interpolate;
use qbuild::stages::{collect_stage_build_args, group_stages, resolve_target_stage_index};
use qbuild::text_map::StringMap;

fn map(pairs: &[(&str, &str)]) -> StringMap {
    let mut map = StringMap::new();
    for (key, value) in pairs {
        map.insert(key.to_string(), value.to_string());
    }
    map
}

fn words(values: &[&str]) -> Vec<String> {
    values.iter().map(|value| value.to_string()).collect()
}

fn host(root: bool) -> RunCapabilities {
    RunCapabilities {
        effective_root: root,
        setup_error: None,
        mount_error: None,
        device_error: None,
    }
}

#[test]
fn parses_multistage_dockerfile() {
    let dockerfile = r#"
            FROM alpine:3.20 AS base
            ARG APP_ENV=prod
            ENV APP_ENV=$APP_ENV
            RUN echo hi

            FROM base AS final
            COPY --from=base /etc /tmp/etc
            CMD ["sh"]
        "#;

    let instructions = parse_dockerfile(dockerfile).unwrap();
    let stages = group_stages(&instructions).unwrap();
    assert_eq!(stages.len(), 2);
    assert_eq!(stages[0].name.as_deref(), Some("base"));
    assert_eq!(stages[1].name.as_deref(), Some("final"));
}

#[test]
fn interpolates_env_and_build_args() {
    let env = map(&[("HOME", "/root")]);
    let args = map(&[("APP", "qbuild")]);
    assert_eq!(
        interpolate("$HOME/${APP}/bin", &env, &args),
        "/root/qbuild/bin"
    );
}

#[test]
fn interpolation_edge_cases() {
    let env = map(&[("A", "env"), ("B", "b")]);
    let args = map(&[("A", "arg")]);
    assert_eq!(interpolate("$A", &env, &args), "arg");
    assert_eq!(interpolate("${A}${B}", &env, &args), "argb");
    assert_eq!(interpolate("${A", &env, &args), "${A");
    assert_eq!(interpolate("$", &env, &args), "$");
    assert_eq!(interpolate("$$A", &env, &args), "$arg");
    assert_eq!(interpolate("${MISSING}x$NONE", &env, &args), "x");
    assert_eq!(interpolate("$-a", &env, &args), "$-a");
    assert_eq!(interpolate("plain text", &env, &args), "plain text");
    assert_eq!(interpolate("${}", &env, &args), "");
}

#[test]
fn logical_lines_join_continuations_and_skip_comments() {
    assert_eq!(
        instruction_lines("FROM a\n\n# note\nRUN one \\\n# inner\n\n  two\r\nCMD x"),
        words(&["FROM a", "RUN one    two", "CMD x"])
    );
    assert_eq!(instruction_lines("RUN a \\"), words(&["RUN a"]));
    assert_eq!(instruction_lines("\\\n"), Vec::<String>::new());
    assert_eq!(instruction_lines("  # indented"), words(&["# indented"]));
}

#[test]
fn comments_make_no_difference() {
    let plain = parse_dockerfile("FROM a\nRUN one \\\ntwo\n").unwrap();
    let noisy = parse_dockerfile("# x\nFROM a\n\nRUN one \\\n# y\ntwo\n#").unwrap();
    assert_eq!(format!("{:?}", plain), format!("{:?}", noisy));
}

#[test]
fn keywords_are_found_in_any_case() {
    assert_eq!(
        split_keyword("from\talpine:3 AS x"),
        Some(("FROM".to_string(), "alpine:3 AS x".to_string()))
    );
    assert_eq!(split_keyword("FROM"), None);
    let lower = parse_dockerfile("from a\nrun b").unwrap();
    let upper = parse_dockerfile("FROM a\nRUN b").unwrap();
    assert_eq!(format!("{:?}", lower), format!("{:?}", upper));
}

#[test]
fn from_takes_an_image_and_an_alias() {
    assert!(matches!(
        parse_from_instruction("alpine AS base").unwrap(),
        Instruction::From { image, alias } if image == "alpine" && alias.as_deref() == Some("base")
    ));
    assert!(matches!(
        parse_from_instruction("'my image' as b extra").unwrap(),
        Instruction::From { image, alias } if image == "my image" && alias.as_deref() == Some("b")
    ));
    assert!(matches!(
        parse_from_instruction("alpine to b").unwrap(),
        Instruction::From { alias, .. } if alias.is_none()
    ));
    assert_eq!(
        parse_from_instruction("'open").unwrap_err(),
        "Invalid FROM instruction ''open'"
    );
    assert_eq!(
        parse_from_instruction("").unwrap_err(),
        "FROM requires an image"
    );
    assert!(from_words("x", None).is_err());
    assert!(from_words("x", Some(words(&["x"]))).is_ok());
}

#[test]
fn arg_takes_a_name_and_a_default() {
    assert!(matches!(
        parse_arg_instruction(" NAME = value=x ").unwrap(),
        Instruction::Arg { name, default } if name == "NAME" && default.as_deref() == Some("value=x")
    ));
    assert!(matches!(
        parse_arg_instruction("NAME").unwrap(),
        Instruction::Arg { name, default } if name == "NAME" && default.is_none()
    ));
    assert_eq!(
        parse_arg_instruction(" =x").unwrap_err(),
        "ARG requires a name"
    );
}

#[test]
fn env_takes_pairs_or_a_key_and_words() {
    assert!(matches!(
        parse_env_instruction("A=1 B='two words'").unwrap(),
        Instruction::Env(pairs)
            if pairs == vec![
                ("A".to_string(), "1".to_string()),
                ("B".to_string(), "two words".to_string())
            ]
    ));
    assert!(matches!(
        parse_env_instruction("KEY some  value").unwrap(),
        Instruction::Env(pairs) if pairs == vec![("KEY".to_string(), "some value".to_string())]
    ));
    assert_eq!(
        parse_env_instruction("KEY").unwrap_err(),
        "ENV requires at least a key and value"
    );
    assert_eq!(
        parse_env_instruction("'open").unwrap_err(),
        "Invalid ENV instruction ''open'"
    );
    assert_eq!(
        parse_key_value_pairs("A=1 B").unwrap_err(),
        "Expected key=value token, got 'B'"
    );
    assert_eq!(
        parse_key_value_pairs("A='").unwrap_err(),
        "Invalid key-value instruction 'A=''"
    );
    assert!(env_words("KEY v", Some(words(&["KEY", "v"]))).is_ok());
    assert!(pair_words("x", Some(words(&["=x"]))).is_ok());
}

#[test]
fn copy_takes_options_sources_and_a_destination() {
    let copy = parse_copy_instruction("--from=base a 'b c' /dst").unwrap();
    assert_eq!(copy.from.as_deref(), Some("base"));
    assert_eq!(copy.sources, words(&["a", "b c"]));
    assert_eq!(copy.destination, "/dst");
    let last = copy_words("", Some(words(&["--from=a", "--from=b", "x", "y"]))).unwrap();
    assert_eq!(last.from.as_deref(), Some("b"));
    assert_eq!(
        parse_copy_instruction("--chown=1 a b").unwrap_err(),
        "Unsupported COPY/ADD option '--chown=1'"
    );
    assert_eq!(
        parse_copy_instruction("only").unwrap_err(),
        "COPY/ADD requires at least one source and one destination"
    );
    assert_eq!(
        parse_copy_instruction("--from=x only").unwrap_err(),
        "COPY/ADD requires at least one source and one destination"
    );
    assert_eq!(
        parse_copy_instruction("'a b").unwrap_err(),
        "Invalid COPY/ADD instruction ''a b'"
    );
}

#[test]
fn json_arrays_are_read() {
    assert_eq!(
        parse_json_array(r#"["a", "b\n"]"#).unwrap(),
        words(&["a", "b\n"])
    );
    let message = parse_json_array("[1]").unwrap_err();
    assert!(message.starts_with("Invalid JSON array '[1]': "));
    assert_eq!(
        array_strings("x", Err("bad".to_string())).unwrap_err(),
        "Invalid JSON array 'x': bad"
    );
    assert_eq!(array_strings("x", Ok(words(&["y"]))).unwrap(), words(&["y"]));
}

#[test]
fn other_instructions_are_read() {
    assert!(matches!(
        parse_instruction("RUN", "[\"a\"]").unwrap(),
        Instruction::Run { exec_form: true, .. }
    ));
    assert!(matches!(
        parse_instruction("RUN", "a").unwrap(),
        Instruction::Run { exec_form: false, command } if command == "a"
    ));
    assert!(matches!(
        parse_instruction("EXPOSE", "80 443/tcp").unwrap(),
        Instruction::Expose(ports) if ports == words(&["80", "443/tcp"])
    ));
    assert!(matches!(
        parse_instruction("EXPOSE", "'80").unwrap(),
        Instruction::Expose(ports) if ports == words(&["'80"])
    ));
    assert!(matches!(
        parse_instruction("VOLUME", "[\"/a\"]").unwrap(),
        Instruction::Volume(paths) if paths == words(&["/a"])
    ));
    assert!(matches!(
        parse_instruction("VOLUME", "/a /b").unwrap(),
        Instruction::Volume(paths) if paths == words(&["/a", "/b"])
    ));
    assert!(parse_instruction("SHELL", "sh").is_err());
    assert!(matches!(
        parse_instruction("SHELL", "[\"bash\"]").unwrap(),
        Instruction::Shell(shell) if shell == words(&["bash"])
    ));
    assert!(matches!(
        parse_instruction("LABEL", "a=b").unwrap(),
        Instruction::Label(pairs) if pairs.len() == 1
    ));
    assert_eq!(
        parse_instruction("HEALTHCHECK", "x").unwrap_err(),
        "Unsupported Dockerfile instruction 'HEALTHCHECK'"
    );
    assert_eq!(
        parse_dockerfile("FROM a\nRUN").unwrap_err(),
        "Invalid Dockerfile instruction 'RUN'"
    );
    assert_eq!(list_words("a b", None), words(&["a b"]));
}

#[test]
fn stages_are_grouped() {
    assert_eq!(
        group_stages(&Vec::new()).unwrap_err(),
        "Dockerfile does not define any build stage"
    );
    let early = parse_dockerfile("ARG A\nFROM a").unwrap();
    assert_eq!(
        group_stages(&early).unwrap_err(),
        "Dockerfile must begin with FROM"
    );
    let all = parse_dockerfile("FROM a AS one\nRUN x\nRUN y\nFROM scratch\nFROM c AS one").unwrap();
    let stages = group_stages(&all).unwrap();
    assert_eq!(
        stages.iter().map(|stage| stage.instructions.len()).collect::<Vec<_>>(),
        vec![2, 0, 0]
    );
    assert!(!stages[0].is_scratch());
    assert!(stages[1].is_scratch());
    assert_eq!(resolve_target_stage_index(&stages, None).unwrap(), 2);
    assert_eq!(resolve_target_stage_index(&stages, Some("one")).unwrap(), 0);
    assert_eq!(
        resolve_target_stage_index(&stages, Some("two")).unwrap_err(),
        "Target stage 'two' not found in Dockerfile"
    );
    assert_eq!(resolve_target_stage_index(&Vec::new(), None).unwrap(), 0);
}

#[test]
fn build_arguments_are_collected() {
    let all = parse_dockerfile("FROM a\nARG X=1\nARG Y\nFROM b\nARG X=2\nARG Z=3").unwrap();
    let stages = group_stages(&all).unwrap();
    let first = collect_stage_build_args(&stages, &map(&[("Y", "given")]), 0);
    assert_eq!(first.get("X").map(String::as_str), Some("1"));
    assert_eq!(first.get("Y").map(String::as_str), Some("given"));
    assert_eq!(first.get("Z"), None);
    let second = collect_stage_build_args(&stages, &map(&[]), 1);
    assert_eq!(second.get("X").map(String::as_str), Some("1"));
    assert_eq!(second.get("Y").map(String::as_str), Some(""));
    assert_eq!(second.get("Z").map(String::as_str), Some("3"));
    assert_eq!(second.len(), 3);
}

#[test]
fn run_commands_are_wrapped() {
    let shell = words(&["/bin/sh", "-c"]);
    assert_eq!(
        run_argv(&shell, "echo hi", false).unwrap(),
        words(&["/bin/sh", "-c", "echo hi"])
    );
    assert_eq!(
        run_argv(&shell, "[\"a\", \"b\"]", true).unwrap(),
        words(&["a", "b"])
    );
    assert_eq!(
        run_argv(&shell, "[]", true).unwrap_err(),
        "RUN exec-form instruction requires a non-empty argv"
    );
    assert!(run_argv(&shell, "[", true)
        .unwrap_err()
        .starts_with("Invalid exec-form RUN instruction '[': "));
    assert_eq!(
        run_argv(&Vec::new(), "a", false).unwrap_err(),
        "SHELL for RUN must not be empty"
    );
    let retried = run_argv(&shell, "apt-get update", false).unwrap();
    assert_eq!(
        retried[2],
        "attempt=1; while true; do apt-get update; status=$?; if [ $status -eq 0 ]; then break; fi; if [ $attempt -ge 5 ]; then exit $status; fi; sleep 5; attempt=$((attempt+1)); done"
    );
}

#[test]
fn commands_are_exec_or_shell_form() {
    let shell = words(&["sh", "-c"]);
    assert_eq!(
        parse_exec_or_shell_command("[\"x\"]", &shell).unwrap(),
        words(&["x"])
    );
    assert_eq!(
        parse_exec_or_shell_command("x y", &shell).unwrap(),
        words(&["sh", "-c", "x y"])
    );
    assert!(parse_exec_or_shell_command("[x", &shell)
        .unwrap_err()
        .starts_with("Invalid exec-form command '[x': "));
    assert_eq!(
        parse_exec_or_shell_command("x", &Vec::new()).unwrap_err(),
        "SHELL for command must not be empty"
    );
}

#[test]
fn only_run_needs_privileges() {
    let copies = parse_dockerfile("FROM a\nCOPY x y\nADD x y").unwrap();
    assert!(!requires_run(&copies));
    assert!(verify_build_execution_requirements(&copies, &host(false)).is_ok());
    let runs = parse_dockerfile("FROM a\nRUN x").unwrap();
    assert!(requires_run(&runs));
    assert!(verify_build_execution_requirements(&runs, &host(true)).is_ok());
    assert_eq!(
        verify_build_execution_requirements(&runs, &host(false)).unwrap_err(),
        "Dockerfiles with RUN require elevated privileges in qbuild's current execution model. Re-run as root or use a privileged build worker."
    );
    let mut broken = host(true);
    broken.device_error = Some("no".to_string());
    assert_eq!(
        verify_build_execution_requirements(&runs, &broken).unwrap_err(),
        "Dockerfiles with RUN require device-node creation capability in qbuild's current execution model: no"
    );
    broken.mount_error = Some("never".to_string());
    assert_eq!(
        verify_build_execution_requirements(&runs, &broken).unwrap_err(),
        "Dockerfiles with RUN require proc-mount capability in qbuild's current execution model: never"
    );
    broken.setup_error = Some("full".to_string());
    assert_eq!(
        verify_build_execution_requirements(&runs, &broken).unwrap_err(),
        "Failed to initialize RUN privilege probe: full"
    );
}
