//! A shell inside a running container, over a connection that is handed over
//! to it.

use crate::daemon::containers::{no_such_container, Container, Status};
use crate::http::{text_response, value_of, Request, Response};
use crate::text::{cat2, cat4, str_eq, views};
use vstd::prelude::*;

verus! {

/// The shells that may be asked for.
pub const ALLOWED_SHELLS: [&'static str; 2] = ["/bin/sh", "/bin/bash"];

/// Whether a shell may be asked for.
pub open spec fn allowed(shell: Seq<char>) -> bool {
    shell == ALLOWED_SHELLS@[0]@ || shell == ALLOWED_SHELLS@[1]@
}

/// The shell that a request is about: the one it asks for, if that one may be
/// asked for.
pub open spec fn shell_of(query: Seq<(Seq<char>, Seq<char>)>) -> Seq<char> {
    match value_of(query, "shell"@) {
        Some(s) => if allowed(s) {
            s
        } else {
            "/bin/bash"@
        },
        None => "/bin/bash"@,
    }
}

/// The shell that a request is about.
pub fn chosen_shell(req: &Request) -> (r: String)
    ensures
        r@ == shell_of(req@.query),
{
    match req.parameter("shell") {
        Some(s) => {
            if str_eq(s, ALLOWED_SHELLS[0]) || str_eq(s, ALLOWED_SHELLS[1]) {
                s.to_owned()
            } else {
                "/bin/bash".to_owned()
            }
        },
        None => "/bin/bash".to_owned(),
    }
}

/// A session to start.
pub struct Session {
    /// The process whose namespaces are joined.
    pub pid: i32,
    /// The namespaces to join, in order. The one of processes is not among
    /// them: a thread that changed it could start no other thread.
    pub namespaces: Vec<String>,
    /// The shells to try, in order.
    pub shells: Vec<String>,
}

/// The namespaces that a session joins.
pub open spec fn session_namespaces() -> Seq<Seq<char>> {
    seq!["user"@, "mnt"@, "uts"@, "ipc"@, "net"@]
}

/// The shells to try: the one that was chosen, and then the one that every
/// image has.
pub open spec fn shells_to_try(shell: Seq<char>) -> Seq<Seq<char>> {
    if shell == "/bin/sh"@ {
        seq![shell]
    } else {
        seq![shell, "/bin/sh"@]
    }
}

/// Whether a session can be started: the container must be there, and run.
/// A container that runs has a process.
pub fn handle(req: &Request, container: &Option<Container>) -> (r: Result<Session, Response>)
    requires
        container matches Some(c) ==> (c.status is Running ==> c.pid is Some),
    ensures
        match (*container, r) {
            (Some(c), Ok(s)) => c.status is Running && c.pid == Some(s.pid) && views(s.namespaces@)
                == session_namespaces() && views(s.shells@) == shells_to_try(shell_of(req@.query)),
            (Some(c), Err(e)) => !(c.status is Running) && e@ == text_response(400, "container is not running"@),
            (None, Err(e)) => e@ == no_such_container(),
            _ => false,
        },
{
    let c = match container {
        Some(c) => c,
        None => {
            return Err(Response::text(404, "no such container"));
        },
    };
    let pid = match (c.status, c.pid) {
        (Status::Running, Some(pid)) => pid,
        _ => {
            return Err(Response::text(400, "container is not running"));
        },
    };
    let shell = chosen_shell(req);
    let last = str_eq(shell.as_str(), "/bin/sh");
    let mut shells: Vec<String> = Vec::new();
    shells.push(shell);
    if !last {
        shells.push("/bin/sh".to_owned());
    }
    assert(views(shells@) =~= shells_to_try(shell_of(req@.query)));
    let namespaces: Vec<String> = vec![
        "user".to_owned(),
        "mnt".to_owned(),
        "uts".to_owned(),
        "ipc".to_owned(),
        "net".to_owned(),
    ];
    assert(views(namespaces@) =~= session_namespaces());
    Ok(Session { pid, namespaces, shells })
}

/// What can fail before a session is there.
#[derive(Debug, Clone, Copy)]
pub enum Setup {
    Terminal,
    Fork,
}

/// The answer to a session that could not be set up.
pub fn setup_failed(what: Setup, error: &str) -> (r: Response)
    ensures
        r@ == text_response(
            500,
            (match what {
                Setup::Terminal => "openpty: "@,
                Setup::Fork => "fork: "@,
            }) + error@,
        ),
{
    let text = match what {
        Setup::Terminal => cat2("openpty: ", error),
        Setup::Fork => cat2("fork: ", error),
    };
    Response::text(500, text.as_str())
}

/// What the forked process does before the shell, in order: it joins the
/// namespaces, gives up its groups, and becomes the container's root. The
/// groups come first, since they would count against it otherwise.
#[derive(Debug, Clone, Copy)]
pub enum ChildStep {
    JoinNamespaces,
    ClearGroups,
    BecomeRootGroup,
    BecomeRootUser,
}

/// The steps of the forked process, in order.
pub fn child_steps() -> (r: Vec<ChildStep>)
    ensures
        r@ == seq![
            ChildStep::JoinNamespaces,
            ChildStep::ClearGroups,
            ChildStep::BecomeRootGroup,
            ChildStep::BecomeRootUser,
        ],
{
    let out: Vec<ChildStep> = vec![
        ChildStep::JoinNamespaces,
        ChildStep::ClearGroups,
        ChildStep::BecomeRootGroup,
        ChildStep::BecomeRootUser,
    ];
    assert(out@ =~= seq![
        ChildStep::JoinNamespaces,
        ChildStep::ClearGroups,
        ChildStep::BecomeRootGroup,
        ChildStep::BecomeRootUser,
    ]);
    out
}

/// The step, as it is called in messages.
pub open spec fn step_name(step: ChildStep) -> Seq<char> {
    match step {
        ChildStep::JoinNamespaces => "joining container namespaces"@,
        ChildStep::ClearGroups => "setgroups"@,
        ChildStep::BecomeRootGroup => "setresgid"@,
        ChildStep::BecomeRootUser => "setresuid"@,
    }
}

/// What the forked process says of a step that failed, before it gives up.
pub fn child_complaint(step: ChildStep, error: &str) -> (r: String)
    ensures
        r@ == "kiln-exec: "@ + step_name(step) + ": "@ + error@,
{
    let name = match step {
        ChildStep::JoinNamespaces => "joining container namespaces",
        ChildStep::ClearGroups => "setgroups",
        ChildStep::BecomeRootGroup => "setresgid",
        ChildStep::BecomeRootUser => "setresuid",
    };
    cat4("kiln-exec: ", name, ": ", error)
}

/// Whatever a request asks for, only a shell that may be asked for is run.
pub proof fn only_allowed_shells_run(query: Seq<(Seq<char>, Seq<char>)>, i: int)
    requires
        0 <= i < shells_to_try(shell_of(query)).len(),
    ensures
        allowed(shells_to_try(shell_of(query))[i]),
{
}

/// A shell that is asked for is tried first if it is one of the two that may be,
/// and the larger one is tried first otherwise; the one that every image has is
/// tried last.
pub proof fn the_asked_shell_is_tried_first(query: Seq<(Seq<char>, Seq<char>)>, shell: Seq<char>)
    ensures
        allowed(shell) <==> shell == "/bin/sh"@ || shell == "/bin/bash"@,
        allowed(shell) ==> shells_to_try(shell_of(query.push(("shell"@, shell))))[0] == shell,
        !allowed(shell) ==> shells_to_try(shell_of(query.push(("shell"@, shell))))[0] == "/bin/bash"@,
        shells_to_try(shell).last() == "/bin/sh"@,
{
    let longer = query.push(("shell"@, shell));
    assert(longer[query.len() as int] == ("shell"@, shell));
    crate::image::the_last_entry_counts(longer, "shell"@, query.len() as int);
    assert(ALLOWED_SHELLS@[0]@ == "/bin/sh"@ && ALLOWED_SHELLS@[1]@ == "/bin/bash"@);
}

/// A session joins the container's users, files, host name, messages and
/// network, its users first.
pub proof fn sessions_join_the_container(x: Seq<char>)
    ensures
        session_namespaces().len() == 5,
        session_namespaces()[0] == "user"@,
        session_namespaces().contains("mnt"@),
        session_namespaces().contains("uts"@),
        session_namespaces().contains("ipc"@),
        session_namespaces().contains("net"@),
{
    let s = session_namespaces();
    assert(s[1] == "mnt"@ && s[2] == "uts"@ && s[3] == "ipc"@ && s[4] == "net"@);
}

} // verus!
