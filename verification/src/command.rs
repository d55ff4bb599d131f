//! The commands of the package manager: which program each operation runs,
//! with which arguments and environment, how its output is taken, and
//! whether it has to wait for the package database lock.
//!
//! Nothing is launched here. Each function describes one command as an
//! [`Invocation`], which a driver carries out.
use crate::lock::APT_LOCK_ATTEMPTS;
use crate::text::texts;
use vstd::prelude::*;
use vstd::string::*;

verus! {

/// What becomes of the standard output of a command.
#[derive(Debug, Clone, Copy, PartialEq, Eq, Structural)]
pub enum OutputMode {
    /// It is left to go where the caller's own output goes.
    Inherit,
    /// It is collected and returned whole when the command has ended.
    Capture,
    /// It is read line by line while the command runs, and each line is
    /// decoded into a progress event.
    Progress,
}

/// One command, ready to be carried out.
#[derive(Debug, Clone, PartialEq, Eq)]
pub struct Invocation {
    /// The program to launch.
    pub program: String,
    /// Names and values that the child's environment gets on top of the
    /// caller's.
    pub env: Vec<(String, String)>,
    /// The arguments, in order.
    pub args: Vec<String>,
    /// What becomes of the standard output.
    pub output: OutputMode,
    /// `Some` with the budget of polls when the command has to wait for the
    /// package database lock, `None` when it runs at once.
    pub lock_attempts: Option<u32>,
}

/// What an [`Invocation`] holds, with its texts as sequences of characters.
pub struct InvocationView {
    pub program: Seq<char>,
    pub env: Seq<(Seq<char>, Seq<char>)>,
    pub args: Seq<Seq<char>>,
    pub output: OutputMode,
    pub lock_attempts: Option<u32>,
}

/// The names and values of an environment.
pub open spec fn env_view(env: Seq<(String, String)>) -> Seq<(Seq<char>, Seq<char>)> {
    env.map_values(|pair: (String, String)| (pair.0@, pair.1@))
}

/// The texts of borrowed strings.
pub open spec fn str_views(items: Seq<&str>) -> Seq<Seq<char>> {
    items.map_values(|item: &str| item@)
}

impl View for Invocation {
    type V = InvocationView;

    open spec fn view(&self) -> InvocationView {
        InvocationView {
            program: self.program@,
            env: env_view(self.env@),
            args: texts(self.args@),
            output: self.output,
            lock_attempts: self.lock_attempts,
        }
    }
}

/// `apt-get`, told not to ask questions: the environment and the arguments
/// that every call of it gets here, followed by `extra`.
pub open spec fn apt_get(extra: Seq<Seq<char>>) -> InvocationView {
    InvocationView {
        program: "apt-get"@,
        env: seq![("DEBIAN_FRONTEND"@, "noninteractive"@)],
        args: seq!["-y"@, "--allow-downgrades"@] + extra,
        output: OutputMode::Inherit,
        lock_attempts: None,
    }
}

/// `apt-get` as in [`apt_get`], with its messages in the fixed locale `C`
/// and its output read as progress.
pub open spec fn apt_get_with_progress(extra: Seq<Seq<char>>) -> InvocationView {
    InvocationView {
        program: "apt-get"@,
        env: seq![("DEBIAN_FRONTEND"@, "noninteractive"@), ("LANG"@, "C"@)],
        args: seq!["-y"@, "--allow-downgrades"@] + extra,
        output: OutputMode::Progress,
        lock_attempts: None,
    }
}

/// The same command, made to wait for the package database lock with the
/// usual budget.
pub open spec fn lock_gated(command: InvocationView) -> InvocationView {
    InvocationView { lock_attempts: Some(APT_LOCK_ATTEMPTS), ..command }
}

/// Adds one argument.
pub(crate) fn push_text(args: &mut Vec<String>, text: &str)
    ensures
        texts(final(args)@) == texts(old(args)@).push(text@),
{
    args.push(text.to_owned());
    assert(texts(args@) =~= texts(old(args)@).push(text@));
}

/// Adds the arguments in order.
pub(crate) fn push_texts(args: &mut Vec<String>, items: &[&str])
    ensures
        texts(final(args)@) == texts(old(args)@) + str_views(items@),
{
    let mut i: usize = 0;
    assert(texts(args@) =~= texts(old(args)@) + str_views(items@.take(0)));
    while i < items.len()
        invariant
            i <= items.len(),
            texts(args@) == texts(old(args)@) + str_views(items@.take(i as int)),
        decreases items.len() - i,
    {
        let ghost before = texts(args@);
        push_text(args, items[i]);
        assert(str_views(items@.take(i + 1)) =~= str_views(items@.take(i as int)).push(
            items@[i as int]@,
        ));
        assert(texts(args@) =~= texts(old(args)@) + str_views(items@.take(i + 1)));
        i += 1;
    }
    assert(items@.take(i as int) =~= items@);
}

/// `apt-get -y --allow-downgrades`, followed by the arguments `extra`, with
/// `DEBIAN_FRONTEND=noninteractive` in its environment.
pub fn apt_noninteractive(extra: &[&str]) -> (command: Invocation)
    ensures
        command@ == apt_get(str_views(extra@)),
{
    let mut env: Vec<(String, String)> = Vec::new();
    env.push(("DEBIAN_FRONTEND".to_owned(), "noninteractive".to_owned()));
    assert(env_view(env@) =~= seq![("DEBIAN_FRONTEND"@, "noninteractive"@)]);
    let mut args: Vec<String> = Vec::new();
    assert(texts(args@) =~= Seq::<Seq<char>>::empty());
    push_text(&mut args, "-y");
    push_text(&mut args, "--allow-downgrades");
    push_texts(&mut args, extra);
    assert(texts(args@) =~= seq!["-y"@, "--allow-downgrades"@] + str_views(extra@));
    Invocation {
        program: "apt-get".to_owned(),
        env,
        args,
        output: OutputMode::Inherit,
        lock_attempts: None,
    }
}

/// The command of [`apt_noninteractive`], with `LANG=C` added to its
/// environment, so that its messages keep the wording that the decoder
/// knows, and with its output read as progress.
pub fn apt_noninteractive_callback(extra: &[&str]) -> (command: Invocation)
    ensures
        command@ == apt_get_with_progress(str_views(extra@)),
{
    let mut command = apt_noninteractive(extra);
    let ghost before = env_view(command.env@);
    command.env.push(("LANG".to_owned(), "C".to_owned()));
    assert(env_view(command.env@) =~= before.push(("LANG"@, "C"@)));
    assert(env_view(command.env@) =~= seq![("DEBIAN_FRONTEND"@, "noninteractive"@), ("LANG"@, "C"@)]);
    command.output = OutputMode::Progress;
    command
}

/// Makes a command wait for the package database lock, with the usual
/// budget of polls.
fn gated(command: Invocation) -> (gated: Invocation)
    ensures
        gated@ == lock_gated(command@),
{
    let mut command = command;
    command.lock_attempts = Some(APT_LOCK_ATTEMPTS);
    command
}

/// `apt-get` with the arguments `first`, then `packages`; lock-gated.
fn apt_get_on(first: &[&str], packages: &[&str]) -> (command: Invocation)
    ensures
        command@ == lock_gated(apt_get(str_views(first@) + str_views(packages@))),
{
    let mut extra: Vec<&str> = Vec::new();
    let mut i: usize = 0;
    while i < first.len()
        invariant
            i <= first.len(),
            extra@ == first@.take(i as int),
        decreases first.len() - i,
    {
        extra.push(first[i]);
        assert(extra@ =~= first@.take(i + 1));
        i += 1;
    }
    let mut j: usize = 0;
    assert(first@.take(i as int) =~= first@);
    assert(extra@ =~= first@ + packages@.take(0));
    while j < packages.len()
        invariant
            j <= packages.len(),
            extra@ == first@ + packages@.take(j as int),
        decreases packages.len() - j,
    {
        extra.push(packages[j]);
        assert(extra@ =~= first@ + packages@.take(j + 1));
        j += 1;
    }
    assert(packages@.take(j as int) =~= packages@);
    assert(str_views(extra@) =~= str_views(first@) + str_views(packages@));
    gated(apt_noninteractive(extra.as_slice()))
}

/// `apt-get -y --allow-downgrades autoremove`, once the lock is free.
pub fn apt_autoremove() -> (command: Invocation)
    ensures
        command@ == lock_gated(apt_get(seq!["autoremove"@])),
{
    let mut first: Vec<&str> = Vec::new();
    first.push("autoremove");
    let none: Vec<&str> = Vec::new();
    assert(str_views(first@) + str_views(none@) =~= seq!["autoremove"@]);
    apt_get_on(first.as_slice(), none.as_slice())
}

/// `apt-cache`, followed by the subcommand and the packages, once the lock
/// is free. Its output is collected.
pub fn apt_cache(subcommand: &str, packages: &[&str]) -> (command: Invocation)
    ensures
        command@ == (InvocationView {
            program: "apt-cache"@,
            env: Seq::empty(),
            args: seq![subcommand@] + str_views(packages@),
            output: OutputMode::Capture,
            lock_attempts: Some(APT_LOCK_ATTEMPTS),
        }),
{
    let env: Vec<(String, String)> = Vec::new();
    assert(env_view(env@) =~= Seq::<(Seq<char>, Seq<char>)>::empty());
    let mut args: Vec<String> = Vec::new();
    assert(texts(args@) =~= Seq::<Seq<char>>::empty());
    push_text(&mut args, subcommand);
    push_texts(&mut args, packages);
    assert(texts(args@) =~= seq![subcommand@] + str_views(packages@));
    Invocation {
        program: "apt-cache".to_owned(),
        env,
        args,
        output: OutputMode::Capture,
        lock_attempts: Some(APT_LOCK_ATTEMPTS),
    }
}

/// `apt-get -y --allow-downgrades install`, followed by the packages, once
/// the lock is free.
pub fn apt_install(packages: &[&str]) -> (command: Invocation)
    ensures
        command@ == lock_gated(apt_get(seq!["install"@] + str_views(packages@))),
{
    let mut first: Vec<&str> = Vec::new();
    first.push("install");
    assert(str_views(first@) =~= seq!["install"@]);
    apt_get_on(first.as_slice(), packages)
}

/// `apt-get -y --allow-downgrades install -f`, once the lock is free.
pub fn apt_install_fix_broken() -> (command: Invocation)
    ensures
        command@ == lock_gated(apt_get(seq!["install"@, "-f"@])),
{
    let mut first: Vec<&str> = Vec::new();
    first.push("install");
    first.push("-f");
    let none: Vec<&str> = Vec::new();
    assert(str_views(first@) + str_views(none@) =~= seq!["install"@, "-f"@]);
    apt_get_on(first.as_slice(), none.as_slice())
}

/// `apt-get -y --allow-downgrades purge`, followed by the packages, once
/// the lock is free.
pub fn apt_purge(packages: &[&str]) -> (command: Invocation)
    ensures
        command@ == lock_gated(apt_get(seq!["purge"@] + str_views(packages@))),
{
    let mut first: Vec<&str> = Vec::new();
    first.push("purge");
    assert(str_views(first@) =~= seq!["purge"@]);
    apt_get_on(first.as_slice(), packages)
}

/// `apt-get -y --allow-downgrades install --reinstall`, followed by the
/// packages, once the lock is free.
pub fn apt_reinstall(packages: &[&str]) -> (command: Invocation)
    ensures
        command@ == lock_gated(
            apt_get(seq!["install"@, "--reinstall"@] + str_views(packages@)),
        ),
{
    let mut first: Vec<&str> = Vec::new();
    first.push("install");
    first.push("--reinstall");
    assert(str_views(first@) =~= seq!["install"@, "--reinstall"@]);
    apt_get_on(first.as_slice(), packages)
}

/// `apt-get -y --allow-downgrades remove --autoremove`, followed by the
/// packages, once the lock is free.
pub fn apt_remove(packages: &[&str]) -> (command: Invocation)
    ensures
        command@ == lock_gated(
            apt_get(seq!["remove"@, "--autoremove"@] + str_views(packages@)),
        ),
{
    let mut first: Vec<&str> = Vec::new();
    first.push("remove");
    first.push("--autoremove");
    assert(str_views(first@) =~= seq!["remove"@, "--autoremove"@]);
    apt_get_on(first.as_slice(), packages)
}

/// `apt-get -y --allow-downgrades update`, once the lock is free.
pub fn apt_update() -> (command: Invocation)
    ensures
        command@ == lock_gated(apt_get(seq!["update"@])),
{
    let mut first: Vec<&str> = Vec::new();
    first.push("update");
    let none: Vec<&str> = Vec::new();
    assert(str_views(first@) + str_views(none@) =~= seq!["update"@]);
    apt_get_on(first.as_slice(), none.as_slice())
}

/// `apt-get -y --allow-downgrades --show-progress full-upgrade`, once the
/// lock is free, with its output read as progress. While the lock is held,
/// [`readiness_event`](crate::event::readiness_event) makes the event to
/// pass on for each poll.
pub fn apt_upgrade() -> (command: Invocation)
    ensures
        command@ == lock_gated(
            apt_get_with_progress(seq!["--show-progress"@, "full-upgrade"@]),
        ),
{
    let mut extra: Vec<&str> = Vec::new();
    extra.push("--show-progress");
    extra.push("full-upgrade");
    assert(str_views(extra@) =~= seq!["--show-progress"@, "full-upgrade"@]);
    gated(apt_noninteractive_callback(extra.as_slice()))
}

/// A command without an environment of its own, whose output is left alone
/// and which does not wait for the lock.
pub open spec fn plain(program: Seq<char>, args: Seq<Seq<char>>) -> InvocationView {
    InvocationView {
        program,
        env: Seq::empty(),
        args,
        output: OutputMode::Inherit,
        lock_attempts: None,
    }
}

/// Describes a plain command.
fn plain_command(program: &str, first: &str, second: &str) -> (command: Invocation)
    ensures
        command@ == plain(program@, seq![first@, second@]),
{
    let env: Vec<(String, String)> = Vec::new();
    assert(env_view(env@) =~= Seq::<(Seq<char>, Seq<char>)>::empty());
    let mut args: Vec<String> = Vec::new();
    assert(texts(args@) =~= Seq::<Seq<char>>::empty());
    push_text(&mut args, first);
    push_text(&mut args, second);
    assert(texts(args@) =~= seq![first@, second@]);
    Invocation {
        program: program.to_owned(),
        env,
        args,
        output: OutputMode::Inherit,
        lock_attempts: None,
    }
}

/// `dpkg --configure -a`, once the lock is free.
pub fn dpkg_configure_all() -> (command: Invocation)
    ensures
        command@ == lock_gated(plain("dpkg"@, seq!["--configure"@, "-a"@])),
{
    gated(plain_command("dpkg", "--configure", "-a"))
}

/// `apt-mark hold`, followed by the package. It does not wait for the lock.
pub fn apt_hold(package: &str) -> (command: Invocation)
    ensures
        command@ == plain("apt-mark"@, seq!["hold"@, package@]),
{
    plain_command("apt-mark", "hold", package)
}

/// `apt-mark unhold`, followed by the package. It does not wait for the
/// lock.
pub fn apt_unhold(package: &str) -> (command: Invocation)
    ensures
        command@ == plain("apt-mark"@, seq!["unhold"@, package@]),
{
    plain_command("apt-mark", "unhold", package)
}

} // verus!
