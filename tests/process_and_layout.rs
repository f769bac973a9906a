use ddbot_supervisor::errors::ErrorKind;
use ddbot_supervisor::install::{
    archive_kind, asset_name_matches, is_executable_entry, pick_asset, ArchiveKind,
    installed_version_text, is_current_install, looks_like_ddbot_executable, tail_lines,
    target_keywords, validate_existing_deployment, DeploymentError, DeploymentProbe, InstalledInfo,
};
use ddbot_supervisor::layout::{
    approval_marker_path, backups_dir, binary_path, config_path, data_dir, ext_db_lock_path,
    installed_info_path, latest_log_path, lsp_db_lock_path, lsp_db_path, managed_ddbot_dir,
    workdir_under,
};
use ddbot_supervisor::supervisor::{
    parse_control_action, status_text, ControlAction, Probe, ProcessStatus, StartStep, Supervisor,
};

#[test]
fn second_start_spawns_nothing() {
    let mut s = Supervisor::new();
    assert_eq!(s.start_step(true, None), Ok(StartStep::Spawn));
    assert_eq!(s.record_spawn(Ok(Some(42))), Ok(()));
    assert!(s.is_tracking());
    assert_eq!(s.start_step(true, Some(Probe::Alive { pid: Some(42) })), Ok(StartStep::AlreadyRunning));
    assert!(s.is_tracking());
}

#[test]
fn exited_child_is_found_on_next_status() {
    let mut s = Supervisor::new();
    s.record_spawn(Ok(Some(7))).unwrap();
    assert_eq!(s.status(Some(Probe::Alive { pid: Some(7) })), ProcessStatus::Running { pid: Some(7) });
    assert!(s.is_tracking());
    assert_eq!(s.status(Some(Probe::Exited { code: Some(137) })), ProcessStatus::Exited { code: Some(137) });
    assert!(!s.is_tracking());
    assert_eq!(s.status(None), ProcessStatus::NotRunning);
    assert_eq!(s.start_step(true, None), Ok(StartStep::Spawn));
}

#[test]
fn start_errors() {
    let mut s = Supervisor::new();
    assert_eq!(s.start_step(false, None), Err(ErrorKind::NotInstalled));
    assert_eq!(s.record_spawn(Err(())), Err(ErrorKind::Spawn));
    assert!(!s.is_tracking());
    s.record_spawn(Ok(None)).unwrap();
    assert_eq!(s.start_step(true, Some(Probe::Failed)), Err(ErrorKind::ProcessIo));
    assert_eq!(s.status(Some(Probe::Failed)), ProcessStatus::Unknown);
    assert!(s.is_tracking());
}

#[test]
fn stop_is_idempotent_and_keeps_token() {
    let mut s = Supervisor::new();
    s.set_token("tok".to_string());
    s.record_spawn(Ok(Some(1))).unwrap();
    assert!(s.stop());
    assert!(!s.stop());
    assert!(!s.is_tracking());
    assert_eq!(s.admin_token(), Some("tok".to_string()));
}

#[test]
fn token_cache_prefers_memory_then_config() {
    let mut s = Supervisor::new();
    assert_eq!(s.get_admin_token(None), None);
    assert_eq!(s.get_admin_token(Some("from-config".to_string())), Some("from-config".to_string()));
    assert_eq!(s.get_admin_token(Some("other".to_string())), Some("from-config".to_string()));
    s.set_token("minted".to_string());
    assert_eq!(s.get_admin_token(None), Some("minted".to_string()));
}

#[test]
fn status_texts() {
    assert_eq!(status_text(ProcessStatus::NotRunning), "未运行");
    assert_eq!(status_text(ProcessStatus::Running { pid: Some(1234) }), "运行中 (pid=1234)");
    assert_eq!(status_text(ProcessStatus::Running { pid: None }), "运行中 (pid=?)");
    assert_eq!(status_text(ProcessStatus::Exited { code: Some(0) }), "已退出 (code=0)");
    assert_eq!(status_text(ProcessStatus::Exited { code: Some(-9) }), "已退出 (code=-9)");
    assert_eq!(status_text(ProcessStatus::Exited { code: None }), "已退出 (code=-)");
    assert_eq!(status_text(ProcessStatus::Unknown), "未知");
}

#[test]
fn control_actions() {
    assert_eq!(parse_control_action("start"), Some(ControlAction::Start));
    assert_eq!(parse_control_action("stop"), Some(ControlAction::Stop));
    assert_eq!(parse_control_action("restart"), Some(ControlAction::Restart));
    assert_eq!(parse_control_action("Start"), None);
}

#[test]
fn layout_paths() {
    assert_eq!(workdir_under("/home/u/.local/share"), "/home/u/.local/share/DDBOT-WSa-Desktop");
    assert_eq!(data_dir("/w"), "/w/data");
    assert_eq!(managed_ddbot_dir("/w"), "/w/data/ddbot");
    assert_eq!(config_path("/w"), "/w/data/ddbot/application.yaml");
    assert_eq!(approval_marker_path("/w"), "/w/data/approved.json");
    assert_eq!(binary_path("/w", false), "/w/binary/DDBOT");
    assert_eq!(binary_path("/w", true), "/w/binary/DDBOT.exe");
    assert_eq!(lsp_db_path("/w"), "/w/data/ddbot/.lsp.db");
    assert_eq!(lsp_db_lock_path("/w"), "/w/data/ddbot/.lsp.db.lock");
    assert_eq!(ext_db_lock_path("/w"), "/w/data/ddbot/.lsp_ext.db.lock");
    assert_eq!(installed_info_path("/w"), "/w/installed.json");
    assert_eq!(backups_dir("/w"), "/w/data/ddbot/backups");
    assert_eq!(latest_log_path("/w"), "/w/data/ddbot/logs/latest.log");
}

#[test]
fn executable_names_in_any_case() {
    assert!(looks_like_ddbot_executable(true, "DDBOT", false));
    assert!(looks_like_ddbot_executable(true, "DDBot.EXE", true));
    assert!(!looks_like_ddbot_executable(true, "DDBOT.exe", false));
    assert!(!looks_like_ddbot_executable(false, "ddbot", false));
    assert!(!looks_like_ddbot_executable(true, "ddbot2", false));
}

fn probe(exists: bool, is_dir: bool, has_executable: bool, has_config: bool, has_data_store: bool) -> DeploymentProbe {
    DeploymentProbe { exists, is_dir, has_executable, has_config, has_data_store }
}

#[test]
fn deployment_checks_in_order() {
    assert_eq!(validate_existing_deployment(probe(true, true, true, true, true)), Ok(()));
    assert_eq!(validate_existing_deployment(probe(false, false, false, false, false)), Err(DeploymentError::SourceNotFound));
    assert_eq!(validate_existing_deployment(probe(true, false, true, true, true)), Err(DeploymentError::NotADirectory));
    assert_eq!(validate_existing_deployment(probe(true, true, false, false, true)), Err(DeploymentError::ExecutableNotFound));
    assert_eq!(validate_existing_deployment(probe(true, true, true, false, false)), Err(DeploymentError::ConfigNotFound));
    assert_eq!(validate_existing_deployment(probe(true, true, true, true, false)), Err(DeploymentError::DataStoreNotFound));
}

#[test]
fn platform_keywords() {
    assert_eq!(target_keywords("linux", "x86_64"), ("linux".to_string(), vec!["amd64".to_string()]));
    assert_eq!(target_keywords("macos", "aarch64"), ("darwin".to_string(), vec!["arm64".to_string()]));
    assert_eq!(target_keywords("windows", "aarch64"), ("windows".to_string(), vec!["arm64".to_string(), "arm".to_string()]));
    assert_eq!(target_keywords("windows", "i686"), ("windows".to_string(), vec!["386".to_string()]));
    assert_eq!(target_keywords("freebsd", "riscv64"), ("freebsd".to_string(), vec!["riscv64".to_string()]));
}

#[test]
fn log_tail() {
    let lines: Vec<String> = vec!["a".to_string(), "b".to_string(), "c".to_string()];
    assert_eq!(tail_lines(lines.clone(), 2), vec!["b".to_string(), "c".to_string()]);
    assert_eq!(tail_lines(lines.clone(), 5), lines);
    assert!(tail_lines(lines, 0).is_empty());
}

#[test]
fn installed_version() {
    let info = InstalledInfo { tag_name: "v1.2".to_string(), asset_name: "x.zip".to_string() };
    assert!(is_current_install(&info, "v1.2", "x.zip", true));
    assert!(!is_current_install(&info, "v1.2", "x.zip", false));
    assert!(!is_current_install(&info, "v1.3", "x.zip", true));
    assert_eq!(installed_version_text(Ok(Some(info))), "v1.2");
    assert_eq!(installed_version_text(Ok(None)), "未安装");
    assert_eq!(installed_version_text(Err(())), "未知");
}

#[test]
fn archive_kinds() {
    assert_eq!(archive_kind("DDBOT-WSa-x-linux-amd64.TAR.GZ"), Some(ArchiveKind::TarGz));
    assert_eq!(archive_kind("DDBOT-WSa-x-windows-386.Zip"), Some(ArchiveKind::Zip));
    assert_eq!(archive_kind("DDBOT-WSa-x-linux-amd64.tar.xz"), None);
}

#[test]
fn executable_entries() {
    assert!(is_executable_entry("DDBOT-WSa/DDBOT"));
    assert!(is_executable_entry("bin/ddbot.EXE"));
    assert!(!is_executable_entry("README.md"));
}

#[test]
fn asset_names_follow_release_naming() {
    assert!(asset_name_matches("DDBOT-WSa-fix_A041-linux-arm64.tar.gz", "linux", "arm64"));
    assert!(asset_name_matches("ddbot-wsa-fix_A041-WINDOWS-386.ZIP", "windows", "386"));
    assert!(asset_name_matches("DDBOT-WSa--darwin-amd64.zip", "darwin", "amd64"));
    assert!(!asset_name_matches("DDBOT-WSa-fix_A041-linux-arm64.tar.gz", "linux", "arm"));
    assert!(!asset_name_matches("DDBOT-WSa-linux-arm64.tar.gz", "linux", "arm64"));
    assert!(!asset_name_matches("Other-fix-linux-arm64.tar.gz", "linux", "arm64"));
}

#[test]
fn asset_choice_prefers_earlier_architecture() {
    let names: Vec<String> = vec![
        "DDBOT-WSa-fix_A041-linux-arm.tar.gz".to_string(),
        "DDBOT-WSa-fix_A041-linux-arm64.tar.gz".to_string(),
        "DDBOT-WSa-fix_A041-windows-arm64.zip".to_string(),
    ];
    let kws = vec!["arm64".to_string(), "arm".to_string()];
    assert_eq!(pick_asset(&names, "linux", &kws), Some(1));
    assert_eq!(pick_asset(&names[..1].to_vec(), "linux", &kws), Some(0));
    assert_eq!(pick_asset(&names, "darwin", &kws), None);
}
