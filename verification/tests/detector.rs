use spark_dashboard::detector::{
    cmdline_bytes_to_args, container_worth_inspecting, docker_candidate, docker_endpoint,
    expand_pid_tree, is_vllm_process, join_with_spaces, merge_docker_candidates,
    native_candidates, parse_endpoint_from_args, parse_model_from_args,
    parse_model_from_command_str, parse_pid_from_top_row, parse_port_from_command_str,
    select_vllm_processes, ContainerRecord, DetectedEngine, ProcessRecord,
};
use spark_dashboard::engines::{DeploymentMode, EngineType};

fn to_args(parts: &[&str]) -> Vec<String> {
    parts.iter().map(|s| s.to_string()).collect()
}

#[test]
fn cmdline_bytes_split_on_nuls_and_drop_trailing_separator() {
    let raw = b"/app/venv/bin/python3.12\x00/app/venv/bin/vllm\x00serve\x00--port\x008080\x00";
    let args = cmdline_bytes_to_args(raw);
    assert_eq!(
        args,
        vec![
            "/app/venv/bin/python3.12",
            "/app/venv/bin/vllm",
            "serve",
            "--port",
            "8080"
        ],
    );
}

#[test]
fn cmdline_bytes_empty_or_blank_are_no_args() {
    assert!(cmdline_bytes_to_args(b"").is_empty());
    assert!(cmdline_bytes_to_args(b"\x00").is_empty());
}

#[test]
fn parsed_cmdline_fallback_args_yield_endpoint_model_and_vllm_match() {
    let raw = b"/app/venv/bin/python3.12\x00/app/venv/bin/vllm\x00serve\x00--host\x000.0.0.0\x00--port\x008080\x00--model\x00Qwen/Qwen3-8B\x00";
    let args = cmdline_bytes_to_args(raw);
    assert_eq!(
        parse_endpoint_from_args(&args, "http://localhost:8000").as_deref(),
        Some("http://localhost:8080"),
    );
    assert_eq!(parse_model_from_args(&args).as_deref(), Some("Qwen/Qwen3-8B"));
    assert!(is_vllm_process(&args.join(" ")));
}

#[test]
fn parses_positional_serve_arg() {
    let args = to_args(&["vllm", "serve", "unsloth/Llama-3.2-1B-Instruct"]);
    assert_eq!(
        parse_model_from_args(&args).as_deref(),
        Some("unsloth/Llama-3.2-1B-Instruct"),
    );
}

#[test]
fn parses_explicit_model_flag() {
    let args = to_args(&[
        "python",
        "-m",
        "vllm.entrypoints.openai.api_server",
        "--model",
        "Qwen/Qwen2.5-3B-Instruct",
    ]);
    assert_eq!(
        parse_model_from_args(&args).as_deref(),
        Some("Qwen/Qwen2.5-3B-Instruct"),
    );
}

#[test]
fn prefers_model_flag_over_positional_and_handles_equals_form() {
    let args = to_args(&["vllm", "serve", "--model=mistralai/Mistral-7B", "--port", "8001"]);
    assert_eq!(parse_model_from_args(&args).as_deref(), Some("mistralai/Mistral-7B"));
}

#[test]
fn returns_none_when_serve_has_no_positional() {
    let args = to_args(&["vllm", "serve"]);
    assert_eq!(parse_model_from_args(&args), None);
}

#[test]
fn command_str_parses_positional_serve() {
    assert_eq!(
        parse_model_from_command_str("vllm serve google/gemma-2-2b-it --port 8002").as_deref(),
        Some("google/gemma-2-2b-it"),
    );
}

#[test]
fn command_str_parses_explicit_model_equals_flag() {
    assert_eq!(
        parse_model_from_command_str(
            "python -m vllm.entrypoints.openai.api_server --model=meta-llama/Llama-3.1-8B-Instruct",
        )
        .as_deref(),
        Some("meta-llama/Llama-3.1-8B-Instruct"),
    );
}

#[test]
fn command_str_returns_none_for_unrelated_command() {
    assert_eq!(parse_model_from_command_str("sleep infinity"), None);
}

fn to_row(parts: &[&str]) -> Vec<String> {
    parts.iter().map(|s| s.to_string()).collect()
}

#[test]
fn top_row_pid_is_parsed_from_first_column() {
    assert_eq!(
        parse_pid_from_top_row(&to_row(&["4242", "vllm serve --port 8000"])),
        Some(4242),
    );
}

#[test]
fn top_row_header_and_malformed_rows_yield_none() {
    assert_eq!(parse_pid_from_top_row(&to_row(&["PID", "COMMAND"])), None);
    assert_eq!(parse_pid_from_top_row(&[]), None);
}

#[test]
fn pid_tree_includes_children_and_grandchildren() {
    let processes = vec![
        (100, Some(1)),
        (101, Some(100)),
        (102, Some(101)),
        (200, Some(1)),
        (201, Some(200)),
    ];
    assert_eq!(expand_pid_tree(&[100], &processes), vec![100, 101, 102]);
}

#[test]
fn pid_tree_without_children_returns_only_roots() {
    let processes = vec![(100, Some(1)), (200, Some(1))];
    assert_eq!(expand_pid_tree(&[100], &processes), vec![100]);
}

#[test]
fn pid_tree_tolerates_parent_cycles() {
    let processes = vec![(100, Some(101)), (101, Some(100))];
    assert_eq!(expand_pid_tree(&[100], &processes), vec![100, 101]);
}

fn candidate(endpoint: &str, mode: DeploymentMode, pids: &[u32]) -> DetectedEngine {
    DetectedEngine {
        engine_type: EngineType::Vllm,
        endpoint: endpoint.to_string(),
        deployment_mode: mode,
        served_model: None,
        pids: pids.to_vec(),
        container_id: None,
    }
}

#[test]
fn a_vllm_server_process_is_recognized_in_its_several_launch_forms() {
    assert!(is_vllm_process("/usr/bin/python3 /usr/local/bin/vllm serve Qwen/Qwen3-8B"));
    assert!(is_vllm_process("vllm serve mistralai/Mistral-7B"));
    assert!(is_vllm_process("python -m vllm.entrypoints.openai.api_server --port 8001"));
}

#[test]
fn a_process_that_merely_mentions_vllm_is_not_a_server() {
    assert!(!is_vllm_process("nginx: master process /usr/sbin/nginx"));
    assert!(!is_vllm_process("sleep infinity"));
    assert!(!is_vllm_process("/bin/sh -c echo starting vllm-proxy"));
    assert!(!is_vllm_process("tail -f /var/log/vllm.log"));
}

#[test]
fn docker_endpoint_uses_the_port_detection_found() {
    assert_eq!(docker_endpoint(Some("8001")), ("http://localhost:8001".to_string(), false));
}

#[test]
fn docker_endpoint_assumes_vllms_default_when_no_port_is_readable() {
    assert_eq!(docker_endpoint(None), ("http://localhost:8000".to_string(), true));
}

#[test]
fn docker_merge_unions_pids_and_upgrades_mode() {
    let mut candidates = vec![candidate("http://localhost:8000", DeploymentMode::Native, &[100, 101])];
    let docker = vec![candidate("http://localhost:8000", DeploymentMode::Docker, &[101, 102])];
    merge_docker_candidates(&mut candidates, docker);

    assert_eq!(candidates.len(), 1);
    assert_eq!(candidates[0].deployment_mode, DeploymentMode::Docker);
    assert_eq!(candidates[0].pids, vec![100, 101, 102]);
}

#[test]
fn docker_merge_keeps_distinct_endpoints_separate() {
    let mut candidates = vec![candidate("http://localhost:8000", DeploymentMode::Native, &[100])];
    let docker = vec![candidate("http://localhost:8001", DeploymentMode::Docker, &[200])];
    merge_docker_candidates(&mut candidates, docker);

    assert_eq!(candidates.len(), 2);
    assert_eq!(candidates[0].pids, vec![100]);
    assert_eq!(candidates[1].pids, vec![200]);
}

// ---------------------------------------------------------------------------
// Further cases
// ---------------------------------------------------------------------------

#[test]
fn docker_merge_fills_a_missing_model_hint_and_container_but_keeps_existing_ones() {
    let mut native = candidate("http://localhost:8000", DeploymentMode::Native, &[7, 3]);
    native.served_model = None;
    let mut other = candidate("http://localhost:9000", DeploymentMode::Native, &[1]);
    other.served_model = Some("kept/model".to_string());
    other.container_id = Some("kept".to_string());
    let mut candidates = vec![native, other];

    let mut d1 = candidate("http://localhost:8000", DeploymentMode::Docker, &[5]);
    d1.served_model = Some("org/model".to_string());
    d1.container_id = Some("abc".to_string());
    let mut d2 = candidate("http://localhost:9000", DeploymentMode::Docker, &[1]);
    d2.served_model = Some("ignored".to_string());
    d2.container_id = Some("ignored".to_string());
    merge_docker_candidates(&mut candidates, vec![d1, d2]);

    assert_eq!(candidates.len(), 2);
    assert_eq!(candidates[0].served_model.as_deref(), Some("org/model"));
    assert_eq!(candidates[0].container_id.as_deref(), Some("abc"));
    assert_eq!(candidates[0].pids, vec![3, 5, 7]);
    assert_eq!(candidates[1].served_model.as_deref(), Some("kept/model"));
    assert_eq!(candidates[1].container_id.as_deref(), Some("kept"));
    assert_eq!(candidates[1].deployment_mode, DeploymentMode::Docker);
    assert_eq!(candidates[1].pids, vec![1]);
}

#[test]
fn pid_tree_with_several_roots_is_sorted_and_deduplicated() {
    let processes = vec![(30, Some(20)), (20, Some(1)), (10, Some(1)), (11, Some(10))];
    assert_eq!(expand_pid_tree(&[20, 10, 20], &processes), vec![10, 11, 20, 30]);
    assert_eq!(expand_pid_tree(&[], &processes), Vec::<u32>::new());
}

#[test]
fn endpoint_flags_build_the_url_and_the_last_flag_wins() {
    let args = to_args(&["vllm", "serve", "--port", "8001", "--host=10.0.0.2", "--port=8005"]);
    assert_eq!(
        parse_endpoint_from_args(&args, "http://localhost:8000").as_deref(),
        Some("http://10.0.0.2:8005")
    );
    let only_host = to_args(&["vllm", "--host", "0.0.0.0"]);
    assert_eq!(
        parse_endpoint_from_args(&only_host, "http://localhost:8000").as_deref(),
        Some("http://localhost:8000")
    );
    let lone_host = to_args(&["vllm", "serve", "--host=10.0.0.9"]);
    assert_eq!(
        parse_endpoint_from_args(&lone_host, "http://localhost:8000").as_deref(),
        Some("http://localhost:8000")
    );
    let none = to_args(&["vllm", "serve", "--port"]);
    assert_eq!(parse_endpoint_from_args(&none, "http://default:1").as_deref(), Some("http://default:1"));
}

#[test]
fn port_from_command_str_needs_a_valid_port_number() {
    assert_eq!(parse_port_from_command_str("vllm serve x --port 8002").as_deref(), Some("8002"));
    assert_eq!(parse_port_from_command_str("vllm serve x --port=+9000").as_deref(), Some("+9000"));
    assert_eq!(parse_port_from_command_str("vllm --port 70000 --port=8003").as_deref(), Some("8003"));
    assert_eq!(parse_port_from_command_str("vllm --port abc"), None);
}

fn process(pid: u32, parent: Option<u32>, name: &str, cmd: &[&str]) -> ProcessRecord {
    ProcessRecord { pid, parent, name: name.to_string(), cmd: to_args(cmd) }
}

#[test]
fn vllm_processes_are_selected_by_name_first_then_by_entrypoint() {
    let by_name = vec![
        process(1, None, "systemd", &["/sbin/init"]),
        process(2, Some(1), "python3", &["python3", "/usr/local/bin/vllm", "serve", "m"]),
        process(3, Some(1), "vllm", &["vllm", "serve", "n"]),
    ];
    assert_eq!(select_vllm_processes(&by_name), vec![2]);

    let by_cmd = vec![
        process(1, None, "systemd", &["/sbin/init"]),
        process(2, Some(1), "python3", &["python3", "/usr/local/bin/vllm", "serve", "m"]),
        process(3, Some(1), "python3", &["python", "-m", "vllm.entrypoints.openai.api_server"]),
        process(4, Some(1), "tail", &["tail", "-f", "vllm.log"]),
    ];
    assert_eq!(select_vllm_processes(&by_cmd), vec![1, 2]);
}

#[test]
fn native_candidates_group_by_endpoint_and_expand_worker_trees() {
    let found = vec![
        (100, to_args(&["vllm", "serve", "a/b", "--port", "8000"])),
        (200, to_args(&["vllm", "serve", "c/d", "--port", "8001"])),
        (101, to_args(&["vllm", "serve", "a/b", "--port", "8000"])),
        (300, Vec::new()),
    ];
    let processes = vec![(100, Some(1)), (150, Some(100)), (200, Some(1)), (101, Some(1)), (250, Some(200))];
    let engines = native_candidates(&found, &processes);
    assert_eq!(engines.len(), 2);
    assert_eq!(engines[0].endpoint, "http://localhost:8000");
    assert_eq!(engines[0].served_model.as_deref(), Some("a/b"));
    assert_eq!(engines[0].pids, vec![100, 101, 150]);
    assert_eq!(engines[0].deployment_mode, DeploymentMode::Native);
    assert_eq!(engines[1].endpoint, "http://localhost:8001");
    assert_eq!(engines[1].pids, vec![200, 250]);
    assert_eq!(engines[1].container_id, None);
}

fn container(id: &str, image: &str, command: &str, names: &[&str], ports: Vec<Option<u16>>) -> ContainerRecord {
    ContainerRecord {
        id: Some(id.to_string()),
        image: Some(image.to_string()),
        command: Some(command.to_string()),
        names: to_args(names),
        public_ports: ports,
    }
}

#[test]
fn a_vllm_image_becomes_a_docker_candidate_with_its_published_port() {
    let c = container("abc", "vllm/vllm-openai:latest", "python3 -m vllm.entrypoints.openai.api_server --model org/m", &["/engine"], vec![None, Some(18000)]);
    assert!(container_worth_inspecting(&c));
    let rows = vec![to_row(&["PID", "COMMAND"]), to_row(&["4242", "python3 -m vllm.entrypoints.openai.api_server"]), to_row(&["4200", "/bin/sh"]), to_row(&["4242", "dup"])];
    let d = docker_candidate(&c, &rows).expect("a vLLM image is an engine");
    assert_eq!(d.endpoint, "http://localhost:18000");
    assert_eq!(d.served_model.as_deref(), Some("org/m"));
    assert_eq!(d.deployment_mode, DeploymentMode::Docker);
    assert_eq!(d.pids, vec![4200, 4242]);
    assert_eq!(d.container_id.as_deref(), Some("abc"));
}

#[test]
fn a_container_named_like_vllm_must_run_a_vllm_process() {
    let proxy = container("p1", "openresty/openresty", "nginx -g daemon off;", &["/vllm-proxy"], vec![]);
    assert!(container_worth_inspecting(&proxy));
    let rows = vec![to_row(&["10", "nginx: master process"])];
    assert!(docker_candidate(&proxy, &rows).is_none());

    let by_hand = container("h1", "private/base", "sleep infinity", &["/VLLM-dev"], vec![]);
    let rows = vec![to_row(&["20", "sleep infinity"]), to_row(&["21", "vllm serve Qwen/Qwen3-8B --port 8010"])];
    let d = docker_candidate(&by_hand, &rows).expect("a vLLM process proves the name");
    assert_eq!(d.endpoint, "http://localhost:8010");
    assert_eq!(d.served_model.as_deref(), Some("Qwen/Qwen3-8B"));
    assert_eq!(d.pids, vec![20, 21]);
}

#[test]
fn a_container_without_any_readable_port_gets_vllms_default() {
    let c = container("x", "vllm/vllm-openai", "vllm serve m", &["/a"], vec![]);
    let d = docker_candidate(&c, &[]).unwrap();
    assert_eq!(d.endpoint, "http://localhost:8000");
    let unrelated = container("y", "postgres", "postgres", &["/db"], vec![Some(5432)]);
    assert!(!container_worth_inspecting(&unrelated));
    assert!(docker_candidate(&unrelated, &[]).is_none());
}

#[test]
fn top_rows_are_ignored_for_a_container_without_an_id() {
    let mut c = container("", "private/base", "sleep infinity", &["/vllm"], vec![]);
    let rows = vec![to_row(&["21", "vllm serve Qwen/Qwen3-8B --port 8010"])];
    assert!(docker_candidate(&c, &rows).is_none());
    c.id = None;
    assert!(docker_candidate(&c, &rows).is_none());
}

#[test]
fn a_top_row_is_joined_with_single_spaces() {
    assert_eq!(join_with_spaces(&to_row(&["1", "vllm", "serve"])), "1 vllm serve");
    assert_eq!(join_with_spaces(&[]), "");
}
