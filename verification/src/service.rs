//! Managing the cache's system service: which command starts, stops,
//! enables or disables it on each operating system, and how the command's
//! outcome is judged. Running the command is left to the caller.
use vstd::prelude::*;
use vstd::utf8::{decode_utf8, valid_utf8};
use crate::text::{owned, str_eq};

verus! {

/// The characters that `String::from_utf8_lossy` makes of `bytes`.
pub uninterp spec fn utf8_lossy(bytes: Seq<u8>) -> Seq<char>;

/// `String::from_utf8_lossy(..).to_string()`: the named result, which on
/// valid UTF-8 is the decoded text.
#[verifier::external_body]
fn lossy_string(bytes: &[u8]) -> (s: String)
    ensures
        s@ == utf8_lossy(bytes@),
        valid_utf8(bytes@) ==> s@ == decode_utf8(bytes@),
{
    String::from_utf8_lossy(bytes).to_string()
}

/// What can go wrong managing the service.
#[derive(Debug, Clone, PartialEq, Eq)]
pub enum ServiceError {
    /// The command could not be run; the operating system's message.
    IoError(String),
    OperationFailed { action: String, service_name: String, stderr: String },
    UnsupportedOperation { action: String },
}

impl ServiceError {
    /// The error's message, as the service manager reports it.
    pub fn message(&self) -> (m: String)
        ensures
            match self {
                ServiceError::IoError(e) => m@ == "IO error: "@ + e@,
                ServiceError::OperationFailed { action, service_name, stderr } => m@
                    == "Service operation '"@ + action@ + "' for '"@ + service_name@ + "' failed: "@
                    + stderr@,
                ServiceError::UnsupportedOperation { action } => m@ == "Unsupported operation '"@
                    + action@ + "' for the current OS"@,
            },
    {
        match self {
            ServiceError::IoError(e) => {
                let mut m = owned("IO error: ");
                m.append(e.as_str());
                m
            },
            ServiceError::OperationFailed { action, service_name, stderr } => {
                let mut m = owned("Service operation '");
                m.append(action.as_str());
                m.append("' for '");
                m.append(service_name.as_str());
                m.append("' failed: ");
                m.append(stderr.as_str());
                m
            },
            ServiceError::UnsupportedOperation { action } => {
                let mut m = owned("Unsupported operation '");
                m.append(action.as_str());
                m.append("' for the current OS");
                m
            },
        }
    }
}

/// The operating system the service runs on.
#[derive(Debug, Clone, Copy, PartialEq, Eq)]
pub enum TargetOs {
    Windows,
    Linux,
    /// macOS and the other Unix-like systems.
    OtherUnix,
}

/// A command to run: the program and its arguments.
#[derive(Debug, Clone, PartialEq, Eq)]
pub struct ServiceCommand {
    pub program: String,
    pub args: Vec<String>,
}

/// The program and the arguments of a command, as text.
pub open spec fn command_view(c: ServiceCommand) -> (Seq<char>, Seq<Seq<char>>) {
    (c.program@, c.args@.map_values(|a: String| a@))
}

/// The command that carries out `action` on `service_name`, or why there is
/// none. Windows goes through `sc` (enabling and disabling are `sc config`
/// with a start type); Linux through `systemctl`; the other Unix-like
/// systems can start and stop with `systemctl` but not enable or disable.
pub open spec fn planned_command(service_name: Seq<char>, action: Seq<char>, os: TargetOs) -> Option<
    (Seq<char>, Seq<Seq<char>>),
> {
    if os == TargetOs::Windows {
        if action == "start"@ || action == "stop"@ {
            Some(("sc"@, seq![action, service_name]))
        } else if action == "enable"@ {
            Some(("sc"@, seq!["config"@, service_name, "start="@, "auto"@]))
        } else if action == "disable"@ {
            Some(("sc"@, seq!["config"@, service_name, "start="@, "disabled"@]))
        } else {
            None
        }
    } else if action == "start"@ || action == "stop"@ || (os == TargetOs::Linux && (action
        == "enable"@ || action == "disable"@)) {
        Some(("systemctl"@, seq![action, service_name]))
    } else {
        None
    }
}

/// Plans and judges service operations.
pub struct ServiceManager;

impl ServiceManager {
    /// The command that carries out `action` on `service_name` on `os`, or
    /// `UnsupportedOperation` naming the action.
    pub fn service_action(service_name: &str, action: &str, os: TargetOs) -> (r: Result<
        ServiceCommand,
        ServiceError,
    >)
        ensures
            match r {
                Ok(c) => planned_command(service_name@, action@, os) == Some(command_view(c)),
                Err(e) => planned_command(service_name@, action@, os) is None && e
                    is UnsupportedOperation && e->UnsupportedOperation_action@ == action@,
            },
    {
        match os {
            TargetOs::Windows => {
                if str_eq(action, "start") || str_eq(action, "stop") {
                    Ok(Self::execute_sc_command(action, service_name, None))
                } else if str_eq(action, "enable") {
                    Ok(Self::execute_sc_command("config", service_name, Some("auto")))
                } else if str_eq(action, "disable") {
                    Ok(Self::execute_sc_command("config", service_name, Some("disabled")))
                } else {
                    Err(ServiceError::UnsupportedOperation { action: owned(action) })
                }
            },
            _ => Self::execute_unix_service_command(action, service_name, os),
        }
    }

    /// `sc <action> <service>`, followed by `start= <start_type>` where a
    /// start type is given.
    fn execute_sc_command(action: &str, service_name: &str, start_type: Option<&str>) -> (c:
        ServiceCommand)
        ensures
            command_view(c) == match start_type {
                None => ("sc"@, seq![action@, service_name@]),
                Some(t) => ("sc"@, seq![action@, service_name@, "start="@, t@]),
            },
    {
        let mut args: Vec<String> = Vec::new();
        args.push(owned(action));
        args.push(owned(service_name));
        if let Some(t) = start_type {
            args.push(owned("start="));
            args.push(owned(t));
        }
        let c = ServiceCommand { program: owned("sc"), args };
        proof {
            assert(command_view(c).1 =~= match start_type {
                None => seq![action@, service_name@],
                Some(t) => seq![action@, service_name@, "start="@, t@],
            });
        }
        c
    }

    /// `systemctl <action> <service>` for starting and stopping, and for
    /// enabling and disabling on Linux.
    fn execute_unix_service_command(action: &str, service_name: &str, os: TargetOs) -> (r: Result<
        ServiceCommand,
        ServiceError,
    >)
        requires
            os != TargetOs::Windows,
        ensures
            match r {
                Ok(c) => planned_command(service_name@, action@, os) == Some(command_view(c)),
                Err(e) => planned_command(service_name@, action@, os) is None && e
                    is UnsupportedOperation && e->UnsupportedOperation_action@ == action@,
            },
    {
        let supported = if str_eq(action, "start") || str_eq(action, "stop") {
            true
        } else if str_eq(action, "enable") || str_eq(action, "disable") {
            match os {
                TargetOs::Linux => true,
                _ => false,
            }
        } else {
            false
        };
        if !supported {
            return Err(ServiceError::UnsupportedOperation { action: owned(action) });
        }
        let mut args: Vec<String> = Vec::new();
        args.push(owned(action));
        args.push(owned(service_name));
        let c = ServiceCommand { program: owned("systemctl"), args };
        proof {
            assert(command_view(c).1 =~= seq![action@, service_name@]);
        }
        Ok(c)
    }

    /// Judges a finished command: failure carries the action, the service
    /// and the command's standard error, decoded leniently.
    pub fn handle_command_output(success: bool, stderr: &[u8], action: &str, service_name: &str) -> (r:
        Result<(), ServiceError>)
        ensures
            success ==> r is Ok,
            !success ==> (r matches Err(ServiceError::OperationFailed { action: a, service_name: s, stderr: e })
                && a@ == action@ && s@ == service_name@ && e@ == utf8_lossy(stderr@) && (valid_utf8(
                stderr@,
            ) ==> e@ == decode_utf8(stderr@))),
    {
        if !success {
            let text = lossy_string(stderr);
            Err(ServiceError::OperationFailed {
                action: owned(action),
                service_name: owned(service_name),
                stderr: text,
            })
        } else {
            Ok(())
        }
    }
}

} // verus!

verus! {

/// Starting and stopping are supported on every operating system: through
/// `sc <action> <service>` on Windows and `systemctl <action> <service>`
/// elsewhere.
pub proof fn law_start_and_stop_everywhere(service_name: Seq<char>, action: Seq<char>, os: TargetOs)
    requires
        action == "start"@ || action == "stop"@,
    ensures
        planned_command(service_name, action, os) is Some,
        planned_command(service_name, action, os)->Some_0.1 == seq![action, service_name],
        os == TargetOs::Windows ==> planned_command(service_name, action, os)->Some_0.0 == "sc"@,
        os != TargetOs::Windows ==> planned_command(service_name, action, os)->Some_0.0
            == "systemctl"@,
{
}

/// Enabling and disabling are supported on Windows (through `sc config`
/// with a start type) and on Linux (through `systemctl`), and on no other
/// system.
pub proof fn law_enable_and_disable(service_name: Seq<char>, action: Seq<char>, os: TargetOs)
    requires
        action == "enable"@ || action == "disable"@,
    ensures
        planned_command(service_name, action, os) is Some <==> os != TargetOs::OtherUnix,
        os == TargetOs::Linux ==> planned_command(service_name, action, os) == Some(
            ("systemctl"@, seq![action, service_name]),
        ),
        os == TargetOs::Windows ==> planned_command(service_name, action, os)->Some_0.0 == "sc"@
            && planned_command(service_name, action, os)->Some_0.1.len() == 4
            && planned_command(service_name, action, os)->Some_0.1[0] == "config"@
            && planned_command(service_name, action, os)->Some_0.1[1] == service_name
            && planned_command(service_name, action, os)->Some_0.1[2] == "start="@,
{
    reveal_strlit("enable");
    reveal_strlit("disable");
    reveal_strlit("start");
    reveal_strlit("stop");
    assert("enable"@[0] != "start"@[0]);
    assert("enable"@[0] != "stop"@[0]);
    assert("disable"@[0] != "start"@[0]);
    assert("disable"@[0] != "stop"@[0]);
    assert("enable"@ != "start"@ && "enable"@ != "stop"@);
    assert("disable"@ != "start"@ && "disable"@ != "stop"@);
}

} // verus!
