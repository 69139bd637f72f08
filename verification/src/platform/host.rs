//! What the rest of the program needs to know about its host.

use vstd::prelude::*;

use crate::platform::{HostOs, IoError, IoErrorKind};

verus! {

/// The directory that a configuration directory is placed under.
#[derive(Clone, Debug, PartialEq, Eq)]
pub enum ConfigBase {
    /// A directory that the environment names.
    Named(String),
    /// The system's directory for temporary files.
    TempDir,
}

/// A configuration directory: a base and what to join to it in turn.
#[derive(Clone, Debug, PartialEq, Eq)]
pub struct ConfigDir {
    pub base: ConfigBase,
    pub components: Vec<String>,
}

/// What a configuration base says, as text.
#[verifier::ext_equal]
pub enum ConfigBaseText {
    Named(Seq<char>),
    TempDir,
}

/// Where a configuration directory lies, as text.
#[verifier::ext_equal]
pub struct ConfigDirText {
    pub base: ConfigBaseText,
    pub components: Seq<Seq<char>>,
}

impl View for ConfigDir {
    type V = ConfigDirText;

    open spec fn view(&self) -> ConfigDirText {
        ConfigDirText {
            base: match self.base {
                ConfigBase::Named(dir) => ConfigBaseText::Named(dir@),
                ConfigBase::TempDir => ConfigBaseText::TempDir,
            },
            components: self.components@.map_values(|component: String| component@),
        }
    }
}

/// The configuration directory for an application on Windows: under
/// `%APPDATA%` where that is set, else under `.config` in `%USERPROFILE%`
/// where that is set, else under the temporary directory.
pub open spec fn windows_config_dir(
    app: Seq<char>,
    appdata: Option<String>,
    user_profile: Option<String>,
) -> ConfigDirText {
    match (appdata, user_profile) {
        (Some(dir), _) => ConfigDirText {
            base: ConfigBaseText::Named(dir@),
            components: seq![app],
        },
        (None, Some(dir)) => ConfigDirText {
            base: ConfigBaseText::Named(dir@),
            components: seq![".config"@, app],
        },
        (None, None) => ConfigDirText { base: ConfigBaseText::TempDir, components: seq![app] },
    }
}

/// The per-user configuration directory to use where neither
/// `XDG_CONFIG_HOME` nor `HOME` is set. `appdata` and `user_profile` are the
/// values of the environment variables of those names. Away from Windows
/// there is none, and the caller has a default of its own.
pub fn fallback_config_dir(
    os: HostOs,
    app_dir_name: &str,
    appdata: Option<String>,
    user_profile: Option<String>,
) -> (dir: Option<ConfigDir>)
    ensures
        os == HostOs::Windows ==> (dir matches Some(found) && found@ == windows_config_dir(
            app_dir_name@,
            appdata,
            user_profile,
        )),
        os != HostOs::Windows ==> dir is None,
{
    match os {
        HostOs::Windows => {
            let mut components: Vec<String> = Vec::new();
            let base = match appdata {
                Some(dir) => ConfigBase::Named(dir),
                None => match user_profile {
                    Some(dir) => {
                        components.push(".config".to_owned());
                        ConfigBase::Named(dir)
                    },
                    None => ConfigBase::TempDir,
                },
            };
            components.push(app_dir_name.to_owned());
            let dir = ConfigDir { base, components };
            assert(dir@ =~= windows_config_dir(app_dir_name@, appdata, user_profile)) by {
                assert(dir@.components =~= windows_config_dir(
                    app_dir_name@,
                    appdata,
                    user_profile,
                ).components);
            }
            Some(dir)
        },
        HostOs::Unix => None,
        HostOs::Other => None,
    }
}

/// The command interpreter on Windows: what `%ComSpec%` names, or `cmd.exe`.
pub open spec fn windows_shell(com_spec: Option<String>) -> Seq<char> {
    match com_spec {
        Some(shell) => shell@,
        None => "cmd.exe"@,
    }
}

/// The interactive shell to start in a pane. `shell` and `com_spec` are the
/// values of the environment variables `SHELL` and `ComSpec`. `$SHELL`
/// decides where it is set; else it is `/bin/sh`, and on Windows the command
/// interpreter.
pub fn default_login_shell(
    os: HostOs,
    shell: Option<String>,
    com_spec: Option<String>,
) -> (chosen: String)
    ensures
        chosen@ == (match shell {
            Some(value) => value@,
            None => if os == HostOs::Windows {
                windows_shell(com_spec)
            } else {
                "/bin/sh"@
            },
        }),
{
    match shell {
        Some(value) => value,
        None => match os {
            HostOs::Windows => match com_spec {
                Some(value) => value,
                None => "cmd.exe".to_owned(),
            },
            HostOs::Unix => "/bin/sh".to_owned(),
            HostOs::Other => "/bin/sh".to_owned(),
        },
    }
}

/// The shell that runs a single command string, and the flag that comes
/// before that string. `com_spec` is the value of the environment variable
/// `ComSpec`.
pub fn shell_command_runner(os: HostOs, com_spec: Option<String>) -> (runner: (
    String,
    &'static str,
))
    ensures
        os == HostOs::Windows ==> runner.0@ == windows_shell(com_spec) && runner.1@ == "/C"@,
        os != HostOs::Windows ==> runner.0@ == "/bin/sh"@ && runner.1@ == "-c"@,
{
    match os {
        HostOs::Windows => match com_spec {
            Some(value) => (value, "/C"),
            None => ("cmd.exe".to_owned(), "/C"),
        },
        HostOs::Unix => ("/bin/sh".to_owned(), "-c"),
        HostOs::Other => ("/bin/sh".to_owned(), "-c"),
    }
}

/// What to do next while a socket is closed to other users. `E` is the error
/// of a system call that failed.
#[derive(Debug, PartialEq, Eq)]
pub enum SocketModeStep<E> {
    /// Look up the socket's file, whose mode is to become this one.
    Stat(u32),
    /// Set the mode of the socket's file to this one.
    SetMode(u32),
    /// Stop, with this result.
    Finish(Result<(), E>),
}

/// The step after `step`, by what came of that one: a failure ends the
/// matter and is handed on as it is.
pub open spec fn socket_step_after<E>(
    step: SocketModeStep<E>,
    outcome: Result<(), E>,
) -> SocketModeStep<E> {
    match step {
        SocketModeStep::Stat(mode) => match outcome {
            Ok(_) => SocketModeStep::SetMode(mode),
            Err(err) => SocketModeStep::Finish(Err(err)),
        },
        SocketModeStep::SetMode(_) => SocketModeStep::Finish(outcome),
        SocketModeStep::Finish(result) => SocketModeStep::Finish(result),
    }
}

/// The step that closing a socket to other users begins with. On Unix the
/// file gets the given mode; elsewhere sockets take their access rights from
/// the directory they are in, and there is nothing to do.
pub open spec fn first_socket_step<E>(os: HostOs, mode: u32) -> SocketModeStep<E> {
    if os == HostOs::Unix {
        SocketModeStep::Stat(mode)
    } else {
        SocketModeStep::Finish(Ok(()))
    }
}

/// Begins to tighten the file mode of a socket so that only its user can
/// connect.
pub fn restrict_socket_permissions<E>(os: HostOs, mode: u32) -> (step: SocketModeStep<E>)
    ensures
        step == first_socket_step::<E>(os, mode),
{
    match os {
        HostOs::Unix => SocketModeStep::Stat(mode),
        HostOs::Windows => SocketModeStep::Finish(Ok(())),
        HostOs::Other => SocketModeStep::Finish(Ok(())),
    }
}

impl<E> SocketModeStep<E> {
    /// The step after this one, by what came of this one.
    pub fn next(self, outcome: Result<(), E>) -> (step: SocketModeStep<E>)
        ensures
            step == socket_step_after(self, outcome),
    {
        match self {
            SocketModeStep::Stat(mode) => match outcome {
                Ok(_) => SocketModeStep::SetMode(mode),
                Err(err) => SocketModeStep::Finish(Err(err)),
            },
            SocketModeStep::SetMode(_) => SocketModeStep::Finish(outcome),
            SocketModeStep::Finish(result) => SocketModeStep::Finish(result),
        }
    }
}

/// On Unix the mode is set only once the file was found, and it is the mode
/// asked for. The result is a success exactly where both calls succeed, and
/// else the error of the first that failed.
pub proof fn a_socket_is_restricted_by_both_calls<E>(
    mode: u32,
    found: Result<(), E>,
    set: Result<(), E>,
)
    ensures
        ({
            let first = first_socket_step::<E>(HostOs::Unix, mode);
            let second = socket_step_after(first, found);
            let third = socket_step_after(second, set);
            &&& first == SocketModeStep::<E>::Stat(mode)
            &&& found is Ok ==> second == SocketModeStep::<E>::SetMode(mode)
            &&& second is SetMode ==> found is Ok
            &&& third == SocketModeStep::Finish(
                if found is Err {
                    found
                } else {
                    set
                },
            )
        }),
{
}

/// Creation flag of a process without a console window.
pub const CREATE_NO_WINDOW: u32 = 0x0800_0000;

/// Creation flag of a process that leads a new process group.
pub const CREATE_NEW_PROCESS_GROUP: u32 = 0x0000_0200;

/// How a command is set up to run as a daemon of its own.
#[derive(Clone, Copy, Debug, PartialEq, Eq, Structural)]
pub enum DaemonDetachment {
    /// In the process group with this number; zero asks for a new one.
    ProcessGroup(i32),
    /// With these process creation flags.
    CreationFlags(u32),
    /// As it is.
    Unchanged,
}

/// How to set up a command so that it outlives the terminal it was started
/// from: in its own process group, and on Windows without a console window
/// too.
pub fn detach_daemon_command(os: HostOs) -> (detachment: DaemonDetachment)
    ensures
        detachment == (match os {
            HostOs::Unix => DaemonDetachment::ProcessGroup(0),
            HostOs::Windows => DaemonDetachment::CreationFlags(0x0800_0200),
            HostOs::Other => DaemonDetachment::Unchanged,
        }),
{
    match os {
        HostOs::Unix => DaemonDetachment::ProcessGroup(0),
        HostOs::Windows => {
            assert(0x0800_0000u32 | 0x0000_0200u32 == 0x0800_0200u32) by (bit_vector);
            DaemonDetachment::CreationFlags(CREATE_NO_WINDOW | CREATE_NEW_PROCESS_GROUP)
        },
        HostOs::Other => DaemonDetachment::Unchanged,
    }
}

/// Whether a Windows error number says that nothing listens on a socket:
/// network down, connection refused, not a socket, file not found, path not
/// found.
pub open spec fn is_missing_socket_code(code: i32) -> bool {
    code == 10050 || code == 10061 || code == 10038 || code == 2 || code == 3
}

/// Whether a failure to connect means that no server is running. The two
/// standard kinds say so anywhere; Windows reports a missing socket under
/// several numbers of its own besides.
pub fn is_server_not_running_error(os: HostOs, err: &IoError) -> (not_running: bool)
    ensures
        not_running == (err.kind == IoErrorKind::NotFound || err.kind
            == IoErrorKind::ConnectionRefused || (os == HostOs::Windows && (err.os_code matches Some(
            code,
        ) && is_missing_socket_code(code)))),
{
    match err.kind {
        IoErrorKind::NotFound => {
            return true;
        },
        IoErrorKind::ConnectionRefused => {
            return true;
        },
        IoErrorKind::Interrupted => {},
        IoErrorKind::Other => {},
    }
    match os {
        HostOs::Windows => match err.os_code {
            Some(code) => code == 10050 || code == 10061 || code == 10038 || code == 2 || code == 3,
            None => false,
        },
        HostOs::Unix => false,
        HostOs::Other => false,
    }
}

/// A configuration directory on Windows is the application's own under the
/// directory that `%APPDATA%` names; without that it is the application's
/// own in `.config` under `%USERPROFILE%`, and without either the
/// application's own in the temporary directory. The names are taken as they
/// are, whatever they say.
pub proof fn a_config_dir_ends_in_the_application(
    app: Seq<char>,
    appdata: Option<String>,
    user_profile: Option<String>,
    found: ConfigDir,
)
    requires
        found@ == windows_config_dir(app, appdata, user_profile),
    ensures
        found.components@.len() > 0,
        found.components@.last()@ == app,
        appdata matches Some(dir) ==> found.components@.len() == 1 && (
        found.base matches ConfigBase::Named(base) && base@ == dir@),
        appdata is None ==> (user_profile matches Some(dir) ==> found.components@.len() == 2
            && found.components@[0]@ == ".config"@ && (found.base matches ConfigBase::Named(base)
            && base@ == dir@)),
        appdata is None && user_profile is None ==> found.components@.len() == 1
            && found.base is TempDir,
{
    let n = found.components@.len();
    assert(n == found@.components.len());
    assert(found.components@[n - 1]@ == found@.components[n - 1]);
    assert(found.components@[0]@ == found@.components[0]);
}

/// The command interpreter is what `%ComSpec%` says, whatever that is, and
/// `cmd.exe` only where it is not set.
pub proof fn com_spec_decides_where_it_is_set(com_spec: Option<String>)
    ensures
        com_spec matches Some(shell) ==> windows_shell(com_spec) == shell@,
        com_spec is None ==> windows_shell(com_spec) == "cmd.exe"@,
{
}

/// Away from Unix nothing is done to a socket, and that is a success. What
/// the matter came to is final.
pub proof fn a_socket_elsewhere_is_left_alone<E>(
    os: HostOs,
    mode: u32,
    result: Result<(), E>,
    outcome: Result<(), E>,
)
    ensures
        os != HostOs::Unix ==> first_socket_step::<E>(os, mode) == SocketModeStep::<E>::Finish(
            Ok(()),
        ),
        socket_step_after(SocketModeStep::Finish(result), outcome) == SocketModeStep::Finish(
            result,
        ),
{
}

/// The numbers of a missing socket are these five and no others.
pub proof fn five_codes_mean_a_missing_socket(code: i32)
    ensures
        is_missing_socket_code(code) <==> seq![2i32, 3, 10038, 10050, 10061].contains(code),
{
    let codes = seq![2i32, 3, 10038, 10050, 10061];
    assert(codes[0] == 2 && codes[1] == 3 && codes[2] == 10038 && codes[3] == 10050 && codes[4]
        == 10061);
}

} // verus!
