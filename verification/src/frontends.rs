//! Executable lifecycle and presentation around the embedded application contract.
use vstd::prelude::*;

use crate::domain::{Error, ErrorCode};
use crate::policy::{copy_names, name_views, Narrowing};
use crate::text::same;
use arguments::{Action, Options};

pub mod application;
pub mod arguments;
pub mod configuration;
pub mod credentials;
pub mod diagnostics;
pub mod mcp;
pub mod mcp_transport;
pub mod presentation;

verus! {

#[derive(Clone, Copy, Debug, PartialEq, Eq, Structural)]
pub enum Executable {
    Cli,
    Mcp,
}

impl Executable {
    pub fn is_mcp(self) -> (r: bool)
        ensures
            r == (self is Mcp),
    {
        self == Executable::Mcp
    }
}

/// The commands that administer the program instead of using it.
pub open spec fn is_administrative(subcommand: Option<Seq<char>>) -> bool {
    subcommand matches Some(name) && (name == "setup"@ || name == "credential"@ || name
        == "doctor"@)
}

/// How a process presents itself: whether it serves tools, and whether its output is for machines.
#[derive(Clone, Copy, Debug, PartialEq, Eq, Structural)]
pub struct Startup {
    pub serving: bool,
    pub json: bool,
}

/// Decides that before the command line is accepted, so that failures are reported in the right form.
pub fn startup(executable: Executable, subcommand: Option<&str>, json: bool) -> (r: Startup)
    ensures
        r.serving == (executable is Mcp && !is_administrative(
            match subcommand {
                Some(name) => Some(name@),
                None => None,
            },
        )),
        r.json == (json && !r.serving),
{
    let administration = match subcommand {
        Some(name) => same(name, "setup") || same(name, "credential") || same(name, "doctor"),
        None => false,
    };
    let serving = executable.is_mcp() && !administration;
    Startup { serving, json: json && !serving }
}

/// What a request gives up: what its options say, and writing where tools are served without leave.
pub open spec fn narrows(options: Options, action: Action, r: Narrowing) -> bool {
    &&& r.read_only == (options.read_only || (action matches Action::Mcp { use_configured_grant }
        && !use_configured_grant))
    &&& match r.accounts {
        Some(accounts) => options.accounts@.len() > 0 && name_views(accounts@) == name_views(
            options.accounts@,
        ),
        None => options.accounts@.len() == 0,
    }
}

pub fn invocation_narrowing(options: &Options, action: &Action) -> (r: Result<Narrowing, Error>)
    ensures
        match r {
            Ok(narrowing) => !(action is Mcp && options.json) && narrows(
                *options,
                *action,
                narrowing,
            ),
            Err(error) => action is Mcp && options.json && error.reports(ErrorCode::InvalidRequest),
        },
{
    let accounts = if options.accounts.len() == 0 {
        None
    } else {
        Some(copy_names(&options.accounts))
    };
    let mut narrowing = Narrowing { read_only: options.read_only, accounts };
    if let Action::Mcp { use_configured_grant } = action {
        if options.json {
            return Err(Error::new(ErrorCode::InvalidRequest));
        }
        narrowing.read_only = narrowing.read_only || !*use_configured_grant;
    }
    Ok(narrowing)
}

/// Tools are read-only unless the operator lets them use the configured grant.
pub proof fn tools_are_read_only_by_default(options: Options, action: Action, narrowing: Narrowing)
    requires
        narrows(options, action, narrowing),
        action == (Action::Mcp { use_configured_grant: false }),
    ensures
        narrowing.read_only,
{
}

/// Where an action is carried out.
#[derive(Clone, Copy, Debug, PartialEq, Eq, Structural)]
pub enum Route {
    /// Change the configuration, without a service.
    Configure,
    /// Open the service and change a stored credential.
    Provision,
    /// Open the service in this process and run the action.
    Embedded,
    /// Run the action in the isolated service.
    Isolated,
}

/// The route of an action: an isolated service exports nothing and is not set up from here.
pub open spec fn routing(isolated: bool, action: Action) -> Result<Route, ErrorCode> {
    if isolated {
        match action {
            Action::Export { .. } => Err(ErrorCode::UnsupportedCapability),
            Action::Setup(_) | Action::Credential(_) => Err(ErrorCode::InvalidRequest),
            _ => Ok(Route::Isolated),
        }
    } else {
        match action {
            Action::Setup(_) => Ok(Route::Configure),
            Action::Credential(_) => Ok(Route::Provision),
            _ => Ok(Route::Embedded),
        }
    }
}

pub fn route(isolated: bool, action: &Action) -> (r: Result<Route, Error>)
    ensures
        match (r, routing(isolated, *action)) {
            (Ok(found), Ok(expected)) => found == expected,
            (Err(error), Err(code)) => error.reports(code),
            _ => false,
        },
{
    if isolated {
        match action {
            Action::Export { .. } => Err(Error::new(ErrorCode::UnsupportedCapability)),
            Action::Setup(_) | Action::Credential(_) => Err(Error::new(ErrorCode::InvalidRequest)),
            _ => Ok(Route::Isolated),
        }
    } else {
        match action {
            Action::Setup(_) => Ok(Route::Configure),
            Action::Credential(_) => Ok(Route::Provision),
            _ => Ok(Route::Embedded),
        }
    }
}

/// The grant of an invocation: the one it names, or the default of the configuration.
pub fn selected_grant(named: &Option<String>, default_grant: &str) -> (r: String)
    ensures
        r@ == (match named {
            Some(name) => name@,
            None => default_grant@,
        }),
{
    match named {
        Some(name) => name.clone(),
        None => default_grant.to_owned(),
    }
}

/// How an operation ended.
#[derive(Debug)]
pub enum Conclusion<T> {
    Interrupted,
    Expired,
    Finished(Result<T, Error>),
}

/// The result of an operation. Where an export could not be cleaned up, that failure is reported instead.
pub fn conclude<T>(conclusion: Conclusion<T>, cleanup: Result<(), Error>) -> (r: Result<T, Error>)
    ensures
        match cleanup {
            Err(error) => r == Err::<T, Error>(error),
            Ok(()) => match conclusion {
                Conclusion::Interrupted => r matches Err(error) && error.reports(
                    ErrorCode::Cancelled,
                ),
                Conclusion::Expired => r matches Err(error) && error.reports(ErrorCode::Timeout),
                Conclusion::Finished(result) => r == result,
            },
        },
{
    match cleanup {
        Err(error) => Err(error),
        Ok(()) => match conclusion {
            Conclusion::Interrupted => Err(Error::new(ErrorCode::Cancelled)),
            Conclusion::Expired => Err(Error::new(ErrorCode::Timeout)),
            Conclusion::Finished(result) => result,
        },
    }
}

/// How the output of a result was written.
#[derive(Clone, Copy, Debug, PartialEq, Eq, Structural)]
pub enum Written {
    /// There was nothing to write.
    Nothing,
    Complete,
    Expired,
    Failed,
}

/// The exit status: that of the failure, if there was one, and otherwise that of the output.
pub fn exit_status(error: Option<&Error>, written: Written) -> (r: u8)
    ensures
        r == (match written {
            Written::Expired => 5,
            Written::Failed => 8,
            _ => match error {
                Some(error) => error.code.status(),
                None => 0,
            },
        }),
{
    match written {
        Written::Expired => 5,
        Written::Failed => 8,
        _ => match error {
            Some(error) => error.exit_code(),
            None => 0,
        },
    }
}

/// A command runs where its kind belongs: setting up and storing secrets happen on this machine alone,
/// nothing is exported through an isolated service, and every other command goes to the service.
pub proof fn commands_run_where_they_belong(isolated: bool, action: Action)
    ensures
        routing(isolated, action) == Ok::<Route, ErrorCode>(Route::Configure) <==> !isolated && action is Setup,
        routing(isolated, action) == Ok::<Route, ErrorCode>(Route::Provision) <==> !isolated && action is Credential,
        routing(isolated, action) == Ok::<Route, ErrorCode>(Route::Embedded) <==> !isolated && !(action is Setup)
            && !(action is Credential),
        routing(isolated, action) == Ok::<Route, ErrorCode>(Route::Isolated) <==> isolated && !(action is Setup)
            && !(action is Credential) && !(action is Export),
        isolated && action is Export ==> routing(isolated, action) == Err::<Route, ErrorCode>(
            ErrorCode::UnsupportedCapability,
        ),
        isolated && (action is Setup || action is Credential) ==> routing(isolated, action) == Err::<Route, ErrorCode>(
            ErrorCode::InvalidRequest,
        ),
{
}

/// The accounts that a command line names are those that a request is narrowed to, and it is read-only
/// where the command line says so; a command that serves tools is read-only unless it is told to use the
/// grant as it stands, and no other command is narrowed unasked.
pub proof fn options_narrow_requests(options: Options, action: Action, narrowing: Narrowing, alias: Seq<char>)
    requires
        narrows(options, action, narrowing),
    ensures
        options.read_only ==> narrowing.read_only,
        !options.read_only && !(action is Mcp) ==> !narrowing.read_only,
        !options.read_only ==> (action matches Action::Mcp { use_configured_grant } ==> narrowing.read_only
            == !use_configured_grant),
        options.accounts@.len() == 0 ==> narrowing.lets_through(alias),
        options.accounts@.len() > 0 ==> (narrowing.lets_through(alias) <==> exists|i: int|
            0 <= i < options.accounts@.len() && (#[trigger] options.accounts@[i])@ == alias),
{
    if let Some(accounts) = narrowing.accounts {
        let (a, b) = (name_views(accounts@), name_views(options.accounts@));
        assert(a.len() == accounts@.len() && b.len() == options.accounts@.len());
        assert(forall|i: int| 0 <= i < a.len() ==> #[trigger] a[i] == accounts@[i]@);
        assert(forall|i: int| 0 <= i < b.len() ==> #[trigger] b[i] == options.accounts@[i]@);
        if exists|i: int| 0 <= i < options.accounts@.len() && (#[trigger] options.accounts@[i])@ == alias {
            let i = choose|i: int| 0 <= i < options.accounts@.len() && (#[trigger] options.accounts@[i])@ == alias;
            assert(a[i] == b[i]);
            assert(accounts@[i]@ == alias);
        }
        if narrowing.lets_through(alias) {
            let i = choose|i: int| 0 <= i < accounts@.len() && (#[trigger] accounts@[i])@ == alias;
            assert(a[i] == b[i]);
            assert(options.accounts@[i]@ == alias);
        }
    }
}

/// The grant that is named is used, and the default one where none is.
pub proof fn the_named_grant_is_used(named: Option<String>, default_grant: &str, r: String)
    requires
        call_ensures(selected_grant, (&named, default_grant), r),
    ensures
        named is None ==> r@ == default_grant@,
        named matches Some(name) ==> r@ == name@,
{
}

/// A run ends as it went, unless cleaning up after it failed: an interruption is told as cancelled, and one
/// that took too long as timed out.
pub proof fn runs_end_as_they_went(
    conclusion: Conclusion<u64>,
    cleanup: Result<(), Error>,
    r: Result<u64, Error>,
)
    requires
        call_ensures(conclude::<u64>, (conclusion, cleanup), r),
    ensures
        cleanup matches Err(error) ==> r == Err::<u64, Error>(error),
        cleanup is Ok && conclusion is Interrupted ==> (r matches Err(error) && error.code is Cancelled),
        cleanup is Ok && conclusion is Expired ==> (r matches Err(error) && error.code is Timeout && error.retryable),
        cleanup is Ok ==> (conclusion matches Conclusion::Finished(result) ==> r == result),
{
}

/// Three commands administer: setting up, secrets, and the doctor.
pub proof fn three_commands_administer(name: Seq<char>)
    ensures
        !is_administrative(None),
        is_administrative(Some("setup"@)) && is_administrative(Some("credential"@)) && is_administrative(
            Some("doctor"@),
        ),
        is_administrative(Some(name)) ==> name == "setup"@ || name == "credential"@ || name == "doctor"@,
{
}

/// A program serves tools where it is the one for that and does not administer, and its output is for
/// machines only where it was asked for and no tools are served.
pub proof fn programs_present_themselves(executable: Executable, subcommand: Option<&str>, json: bool, r: Startup)
    requires
        call_ensures(startup, (executable, subcommand, json), r),
    ensures
        r.serving ==> executable is Mcp && !r.json,
        r.json ==> json,
        json && !r.serving ==> r.json,
        executable is Mcp && subcommand is None ==> r.serving,
        subcommand matches Some(name) ==> name@ == "setup"@ || name@ == "credential"@ || name@ == "doctor"@
            ==> !r.serving,
        executable is Mcp ==> (subcommand matches Some(name) ==> name@ != "setup"@ && name@ != "credential"@ && name@
            != "doctor"@ ==> r.serving),
{
}

} // verus!
