use rust_disk_cache::errors::{clean_cache_result, GeneralError, IoFailure};
use rust_disk_cache::errors::CacheError;
use rust_disk_cache::service::{ServiceCommand, ServiceError, ServiceManager, TargetOs};

fn cmd(program: &str, args: &[&str]) -> ServiceCommand {
    ServiceCommand { program: program.to_string(), args: args.iter().map(|a| a.to_string()).collect() }
}

#[test]
fn linux_uses_systemctl_for_every_action() {
    for action in ["start", "stop", "enable", "disable"] {
        assert_eq!(
            ServiceManager::service_action("trust", action, TargetOs::Linux),
            Ok(cmd("systemctl", &[action, "trust"]))
        );
    }
}

#[test]
fn other_unix_cannot_enable_or_disable() {
    assert_eq!(
        ServiceManager::service_action("trust", "start", TargetOs::OtherUnix),
        Ok(cmd("systemctl", &["start", "trust"]))
    );
    assert_eq!(
        ServiceManager::service_action("trust", "enable", TargetOs::OtherUnix),
        Err(ServiceError::UnsupportedOperation { action: "enable".to_string() })
    );
}

#[test]
fn windows_uses_sc() {
    assert_eq!(
        ServiceManager::service_action("trust", "stop", TargetOs::Windows),
        Ok(cmd("sc", &["stop", "trust"]))
    );
    assert_eq!(
        ServiceManager::service_action("trust", "enable", TargetOs::Windows),
        Ok(cmd("sc", &["config", "trust", "start=", "auto"]))
    );
    assert_eq!(
        ServiceManager::service_action("trust", "disable", TargetOs::Windows),
        Ok(cmd("sc", &["config", "trust", "start=", "disabled"]))
    );
}

#[test]
fn unknown_action_is_unsupported_everywhere() {
    for os in [TargetOs::Windows, TargetOs::Linux, TargetOs::OtherUnix] {
        assert_eq!(
            ServiceManager::service_action("trust", "restart", os),
            Err(ServiceError::UnsupportedOperation { action: "restart".to_string() })
        );
    }
}

#[test]
fn command_output_is_judged_by_its_status() {
    assert_eq!(ServiceManager::handle_command_output(true, b"ignored", "start", "trust"), Ok(()));
    assert_eq!(
        ServiceManager::handle_command_output(false, b"no such unit\xff", "start", "trust"),
        Err(ServiceError::OperationFailed {
            action: "start".to_string(),
            service_name: "trust".to_string(),
            stderr: "no such unit\u{FFFD}".to_string(),
        })
    );
}

#[test]
fn service_error_messages() {
    let e = ServiceError::OperationFailed {
        action: "start".to_string(),
        service_name: "trust".to_string(),
        stderr: "boom".to_string(),
    };
    assert_eq!(e.message(), "Service operation 'start' for 'trust' failed: boom");
    assert_eq!(
        ServiceError::UnsupportedOperation { action: "x".to_string() }.message(),
        "Unsupported operation 'x' for the current OS"
    );
    assert_eq!(ServiceError::IoError("denied".to_string()).message(), "IO error: denied");
}

#[test]
fn general_error_messages() {
    assert_eq!(GeneralError::OperationFailed("x".to_string()).message(), "Operation failed: x");
    assert_eq!(GeneralError::IoError("disk full".to_string()).message(), "disk full");
}

#[test]
fn clean_cache_treats_missing_file_as_clean() {
    assert_eq!(clean_cache_result(None), Ok(()));
    assert_eq!(
        clean_cache_result(Some(IoFailure { not_found: true, message: "gone".to_string() })),
        Ok(())
    );
    assert_eq!(
        clean_cache_result(Some(IoFailure { not_found: false, message: "denied".to_string() })),
        Err(CacheError::CleanupError("Failed to clean cache: denied".to_string()))
    );
}
