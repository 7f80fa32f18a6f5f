//! Setting up devices: recognising the board and the distribution, the
//! commands that prepare root's SSH access, and the executer that runs a list
//! of commands step by step.

use vstd::prelude::*;

use regex::Error as RegexError;

use crate::text::{is_white_space, lemma_trimmed_padded, same_text, trim, trimmed};

verus! {

#[verifier::external_type_specification]
#[verifier::external_body]
pub struct ExRegex(regex::Regex);

#[verifier::external_type_specification]
#[verifier::external_body]
pub struct ExRegexError(RegexError);

/// Whether `regex::Regex::new` accepts `pattern`.
pub uninterp spec fn regex_compiles(pattern: Seq<char>) -> bool;

/// Whether the regular expression `pattern` matches anywhere in `text`.
pub uninterp spec fn regex_is_match(pattern: Seq<char>, text: Seq<char>) -> bool;

/// `regex::Regex::new`: compiles `pattern`, and fails exactly when
/// [`regex_compiles`] does not hold of it.
#[verifier::external_body]
fn compile_regex(pattern: &str) -> (r: Result<regex::Regex, RegexError>)
    ensures
        r is Ok <==> regex_compiles(pattern@),
{
    regex::Regex::new(pattern)
}

/// A compiled regular expression, together with its source.
pub struct Pattern {
    source: String,
    compiled: regex::Regex,
}

impl View for Pattern {
    type V = Seq<char>;

    /// The source of the pattern.
    closed spec fn view(&self) -> Seq<char> {
        self.source@
    }
}

impl Pattern {
    pub fn new(source: &str) -> (r: Result<Pattern, RegexError>)
        ensures
            r is Ok <==> regex_compiles(source@),
            r matches Ok(p) ==> p@ == source@,
    {
        match compile_regex(source) {
            Ok(compiled) => Ok(Pattern { source: String::from_str(source), compiled }),
            Err(e) => Err(e),
        }
    }

    /// `regex::Regex::is_match` on the expression compiled from the source:
    /// whether the pattern matches anywhere in `text`, as
    /// [`regex_is_match`] names it. A `Pattern` is only made by
    /// [`Pattern::new`], which compiles its source.
    #[verifier::external_body]
    fn is_match(&self, text: &str) -> (b: bool)
        ensures
            b == regex_is_match(self@, text@),
    {
        self.compiled.is_match(text)
    }
}

/// The errors of recognising a device.
#[derive(Debug)]
pub enum SetupError {
    /// No known board has this name.
    UnknownDevice(String),
    /// The release file names no supported distribution.
    UnsupportedDistribution,
    /// A pattern of the release file does not compile.
    InvalidPattern,
}

impl SetupError {
    pub open spec fn spec_message(&self) -> Seq<char> {
        match self {
            SetupError::UnknownDevice(s) => "Could not find divice: "@ + s@,
            SetupError::UnsupportedDistribution => "Could not find supported distribution"@,
            SetupError::InvalidPattern => "Invalid distribution pattern"@,
        }
    }

    /// The text this error is shown with.
    pub fn message(&self) -> (m: String)
        ensures
            m@ == self.spec_message(),
    {
        match self {
            SetupError::UnknownDevice(s) => {
                let mut m = String::from_str("Could not find divice: ");
                m.append(s.as_str());
                m
            },
            SetupError::UnsupportedDistribution => String::from_str(
                "Could not find supported distribution",
            ),
            SetupError::InvalidPattern => String::from_str("Invalid distribution pattern"),
        }
    }
}

/// The boards that can be set up.
#[derive(Debug, Clone, Copy, PartialEq, Eq, Structural)]
pub enum Device {
    OdroidHC4,
    OdroidMC1,
    RaspberryPi,
}

/// The board a hostname names, once trimmed.
pub open spec fn device_named(s: Seq<char>) -> Option<Device> {
    let t = trimmed(s);
    if t == "odroidhc4"@ {
        Some(Device::OdroidHC4)
    } else if t == "odroidmc1"@ {
        Some(Device::OdroidMC1)
    } else if t == "raspberrypi"@ {
        Some(Device::RaspberryPi)
    } else {
        None
    }
}

impl Device {
    /// The board that the (untrimmed) hostname `s` names.
    pub fn from_str(s: &str) -> (r: Result<Device, SetupError>)
        ensures
            match device_named(s@) {
                Some(d) => r == Ok::<Device, SetupError>(d),
                None => r matches Err(SetupError::UnknownDevice(name)) && name@ == s@,
            },
    {
        let t = trim(s);
        if same_text(t.as_str(), "odroidhc4") {
            Ok(Device::OdroidHC4)
        } else if same_text(t.as_str(), "odroidmc1") {
            Ok(Device::OdroidMC1)
        } else if same_text(t.as_str(), "raspberrypi") {
            Ok(Device::RaspberryPi)
        } else {
            Err(SetupError::UnknownDevice(String::from_str(s)))
        }
    }
}

/// Each board name, with any white space around it (as in a hostname file
/// that ends in a line break), names its own board, and a hostname names a
/// board only when, trimmed, it is that board's name.
pub proof fn board_names(w1: Seq<char>, w2: Seq<char>, s: Seq<char>)
    requires
        forall|i: int| 0 <= i < w1.len() ==> is_white_space(#[trigger] w1[i]),
        forall|i: int| 0 <= i < w2.len() ==> is_white_space(#[trigger] w2[i]),
    ensures
        device_named(w1 + "odroidhc4"@ + w2) == Some(Device::OdroidHC4),
        device_named(w1 + "odroidmc1"@ + w2) == Some(Device::OdroidMC1),
        device_named(w1 + "raspberrypi"@ + w2) == Some(Device::RaspberryPi),
        device_named(s) == Some(Device::OdroidHC4) ==> trimmed(s) == "odroidhc4"@,
        device_named(s) == Some(Device::OdroidMC1) ==> trimmed(s) == "odroidmc1"@,
        device_named(s) == Some(Device::RaspberryPi) ==> trimmed(s) == "raspberrypi"@,
{
    reveal_strlit("odroidhc4");
    reveal_strlit("odroidmc1");
    reveal_strlit("raspberrypi");
    let names = seq!["odroidhc4"@, "odroidmc1"@, "raspberrypi"@];
    assert forall|i: int| 0 <= i < 3 implies trimmed(w1 + #[trigger] names[i] + w2) == names[i] by {
        let n = names[i];
        assert(n.len() > 0);
        assert(!is_white_space(n[0]));
        assert(!is_white_space(n.last()));
        lemma_trimmed_padded(w1, n, w2);
    }
    assert(names[0] == "odroidhc4"@);
    assert(names[1] == "odroidmc1"@);
    assert(names[2] == "raspberrypi"@);
    assert("odroidmc1"@[6] == 'm' && "odroidhc4"@[6] == 'h');
    assert("odroidmc1"@ != "odroidhc4"@);
    assert("raspberrypi"@.len() != "odroidhc4"@.len());
}

/// The distributions that can be set up.
#[derive(Debug, Clone, Copy, PartialEq, Eq, Structural)]
pub enum Distribution {
    Armbian,
    RaspberryPiOS,
    Debian,
    Ubuntu,
}

pub open spec fn armbian_pattern() -> Seq<char> {
    "(?m)^PRETTY_NAME=\"Armbian.*"@
}

pub open spec fn raspbian_pattern() -> Seq<char> {
    "(?m)^ID=\"raspbian\"$"@
}

pub open spec fn ubuntu_pattern() -> Seq<char> {
    "(?m)^ID=\"ubuntu\"$"@
}

pub open spec fn debian_pattern() -> Seq<char> {
    "(?m)^ID=\"debian\"$"@
}

/// The distribution that the release file describes, given which of the
/// patterns matched it: Armbian, Raspberry Pi OS, Ubuntu and Debian are tried
/// in this order, and the first that matched is the answer.
pub open spec fn spec_distribution(armbian: bool, raspbian: bool, ubuntu: bool, debian: bool) -> Option<Distribution> {
    if armbian {
        Some(Distribution::Armbian)
    } else if raspbian {
        Some(Distribution::RaspberryPiOS)
    } else if ubuntu {
        Some(Distribution::Ubuntu)
    } else if debian {
        Some(Distribution::Debian)
    } else {
        None
    }
}

/// Which distribution the matches of the four release patterns name; see
/// [`spec_distribution`].
pub fn distribution_from_matches(armbian: bool, raspbian: bool, ubuntu: bool, debian: bool) -> (r:
    Result<Distribution, SetupError>)
    ensures
        match spec_distribution(armbian, raspbian, ubuntu, debian) {
            Some(d) => r == Ok::<Distribution, SetupError>(d),
            None => r matches Err(SetupError::UnsupportedDistribution),
        },
{
    if armbian {
        Ok(Distribution::Armbian)
    } else if raspbian {
        Ok(Distribution::RaspberryPiOS)
    } else if ubuntu {
        Ok(Distribution::Ubuntu)
    } else if debian {
        Ok(Distribution::Debian)
    } else {
        Err(SetupError::UnsupportedDistribution)
    }
}

/// Whether the pattern matches `text`; `None` if it does not compile.
fn search(pattern: &str, text: &str) -> (r: Option<bool>)
    ensures
        r is None <==> !regex_compiles(pattern@),
        r matches Some(b) ==> b == regex_is_match(pattern@, text@),
{
    match Pattern::new(pattern) {
        Ok(p) => Some(p.is_match(text)),
        Err(_) => None,
    }
}

/// The outcome of trying the release patterns on `text` in order: the
/// first that does not compile ends the search with an error, the first that
/// matches gives its distribution.
pub open spec fn spec_os_release(text: Seq<char>) -> Result<Distribution, SetupError> {
    if !regex_compiles(armbian_pattern()) {
        Err(SetupError::InvalidPattern)
    } else if regex_is_match(armbian_pattern(), text) {
        Ok(Distribution::Armbian)
    } else if !regex_compiles(raspbian_pattern()) {
        Err(SetupError::InvalidPattern)
    } else if regex_is_match(raspbian_pattern(), text) {
        Ok(Distribution::RaspberryPiOS)
    } else if !regex_compiles(ubuntu_pattern()) {
        Err(SetupError::InvalidPattern)
    } else if regex_is_match(ubuntu_pattern(), text) {
        Ok(Distribution::Ubuntu)
    } else if !regex_compiles(debian_pattern()) {
        Err(SetupError::InvalidPattern)
    } else if regex_is_match(debian_pattern(), text) {
        Ok(Distribution::Debian)
    } else {
        Err(SetupError::UnsupportedDistribution)
    }
}

/// The distribution that the content of `/etc/os-release` describes: the
/// first of Armbian (by its pretty name), Raspberry Pi OS, Ubuntu and Debian
/// (by their id) whose pattern matches; see [`spec_os_release`].
pub fn distribution_from_os_release(release_os: &str) -> (r: Result<Distribution, SetupError>)
    ensures
        r == spec_os_release(release_os@),
        regex_compiles(armbian_pattern()) && regex_compiles(raspbian_pattern())
            && regex_compiles(ubuntu_pattern()) && regex_compiles(debian_pattern()) ==> match spec_distribution(
            regex_is_match(armbian_pattern(), release_os@),
            regex_is_match(raspbian_pattern(), release_os@),
            regex_is_match(ubuntu_pattern(), release_os@),
            regex_is_match(debian_pattern(), release_os@),
        ) {
            Some(d) => r == Ok::<Distribution, SetupError>(d),
            None => r matches Err(SetupError::UnsupportedDistribution),
        },
{
    let armbian = match search("(?m)^PRETTY_NAME=\"Armbian.*", release_os) {
        Some(b) => b,
        None => return Err(SetupError::InvalidPattern),
    };
    if armbian {
        return distribution_from_matches(true, false, false, false);
    }
    let raspbian = match search("(?m)^ID=\"raspbian\"$", release_os) {
        Some(b) => b,
        None => return Err(SetupError::InvalidPattern),
    };
    if raspbian {
        return distribution_from_matches(false, true, false, false);
    }
    let ubuntu = match search("(?m)^ID=\"ubuntu\"$", release_os) {
        Some(b) => b,
        None => return Err(SetupError::InvalidPattern),
    };
    if ubuntu {
        return distribution_from_matches(false, false, true, false);
    }
    let debian = match search("(?m)^ID=\"debian\"$", release_os) {
        Some(b) => b,
        None => return Err(SetupError::InvalidPattern),
    };
    distribution_from_matches(false, false, false, debian)
}

/// Which distribution a release text is taken for, in terms of the
/// regular expressions that `regex` matches against it: a text in which some
/// line begins with `PRETTY_NAME="Armbian` (the expression
/// `(?m)^PRETTY_NAME="Armbian.*`, whatever the version after it) is Armbian;
/// otherwise a line that is exactly `ID="raspbian"`, `ID="ubuntu"` or
/// `ID="debian"`, tried in this order, names Raspberry Pi OS, Ubuntu or
/// Debian; otherwise the distribution is not supported.
pub proof fn release_text_names_distribution(text: Seq<char>)
    requires
        regex_compiles("(?m)^PRETTY_NAME=\"Armbian.*"@),
        regex_compiles("(?m)^ID=\"raspbian\"$"@),
        regex_compiles("(?m)^ID=\"ubuntu\"$"@),
        regex_compiles("(?m)^ID=\"debian\"$"@),
    ensures
        regex_is_match("(?m)^PRETTY_NAME=\"Armbian.*"@, text) ==> spec_os_release(text) == Ok::<
            Distribution,
            SetupError,
        >(Distribution::Armbian),
        !regex_is_match("(?m)^PRETTY_NAME=\"Armbian.*"@, text) && regex_is_match(
            "(?m)^ID=\"raspbian\"$"@,
            text,
        ) ==> spec_os_release(text) == Ok::<Distribution, SetupError>(Distribution::RaspberryPiOS),
        !regex_is_match("(?m)^PRETTY_NAME=\"Armbian.*"@, text) && !regex_is_match(
            "(?m)^ID=\"raspbian\"$"@,
            text,
        ) && regex_is_match("(?m)^ID=\"ubuntu\"$"@, text) ==> spec_os_release(text) == Ok::<
            Distribution,
            SetupError,
        >(Distribution::Ubuntu),
        !regex_is_match("(?m)^PRETTY_NAME=\"Armbian.*"@, text) && !regex_is_match(
            "(?m)^ID=\"raspbian\"$"@,
            text,
        ) && !regex_is_match("(?m)^ID=\"ubuntu\"$"@, text) && regex_is_match(
            "(?m)^ID=\"debian\"$"@,
            text,
        ) ==> spec_os_release(text) == Ok::<Distribution, SetupError>(Distribution::Debian),
        !regex_is_match("(?m)^PRETTY_NAME=\"Armbian.*"@, text) && !regex_is_match(
            "(?m)^ID=\"raspbian\"$"@,
            text,
        ) && !regex_is_match("(?m)^ID=\"ubuntu\"$"@, text) && !regex_is_match(
            "(?m)^ID=\"debian\"$"@,
            text,
        ) ==> spec_os_release(text) matches Err(SetupError::UnsupportedDistribution),
{
}

/// The command that creates root's SSH directory.
pub open spec fn mkdir_command() -> Seq<char> {
    "sudo mkdir /root/.ssh"@
}

/// The command that makes `key` root's only authorized key.
pub open spec fn authorize_command(key: Seq<char>) -> Seq<char> {
    "sudo sh -c 'echo -n \""@ + key + "\" > /root/.ssh/authorized_keys'"@
}

/// What running a command gave: its exit code and its output.
#[derive(Debug)]
pub struct ExecResult {
    pub exit_code: i32,
    pub stdout: String,
    pub stderr: String,
}

/// Runs a list of commands, starting at a chosen step.
pub struct StepExecuter {
    steps: Vec<String>,
    current_step: usize,
}

pub struct StepExecuterView {
    pub steps: Seq<Seq<char>>,
    pub current_step: nat,
}

impl View for StepExecuter {
    type V = StepExecuterView;

    closed spec fn view(&self) -> StepExecuterView {
        StepExecuterView {
            steps: self.steps@.map_values(|s: String| s@),
            current_step: self.current_step as nat,
        }
    }
}

/// The commands that are run: those from the current step on.
pub open spec fn pending_steps(e: StepExecuterView) -> Seq<Seq<char>> {
    if e.current_step <= e.steps.len() {
        e.steps.subrange(e.current_step as int, e.steps.len() as int)
    } else {
        Seq::empty()
    }
}

/// The pending commands are the steps from the current step on: as many as
/// follow it, the `j`-th of them the step at `current_step + j`; none when
/// the current step is past the last.
pub proof fn steps_run_from_current(e: StepExecuterView)
    ensures
        e.current_step <= e.steps.len() ==> pending_steps(e).len() == e.steps.len() - e.current_step,
        forall|j: int|
            0 <= j < pending_steps(e).len() ==> #[trigger] pending_steps(e)[j] == e.steps[e.current_step + j],
        e.current_step > e.steps.len() ==> pending_steps(e).len() == 0,
{
}

/// A step added to the executer is run last, after the pending ones, as
/// long as the current step is not past the end.
pub proof fn added_step_runs_last(e: StepExecuterView, c: Seq<char>)
    requires
        e.current_step <= e.steps.len(),
    ensures
        pending_steps(StepExecuterView { steps: e.steps.push(c), current_step: e.current_step })
            == pending_steps(e).push(c),
{
    assert(e.steps.push(c).subrange(e.current_step as int, (e.steps.len() + 1) as int) =~= e.steps.subrange(
        e.current_step as int,
        e.steps.len() as int,
    ).push(c));
}

impl StepExecuter {
    pub fn new() -> (e: StepExecuter)
        ensures
            e@.steps == Seq::<Seq<char>>::empty(),
            e@.current_step == 0,
    {
        let e = StepExecuter { steps: Vec::new(), current_step: 0 };
        assert(e@.steps =~= Seq::<Seq<char>>::empty());
        e
    }

    pub fn set_step(&mut self, step: usize)
        ensures
            final(self)@.steps == old(self)@.steps,
            final(self)@.current_step == step,
    {
        self.current_step = step;
    }

    pub fn add_step(&mut self, command: &str)
        ensures
            final(self)@.steps == old(self)@.steps.push(command@),
            final(self)@.current_step == old(self)@.current_step,
    {
        self.steps.push(String::from_str(command));
        proof {
            assert(self@.steps =~= old(self)@.steps.push(command@));
        }
    }

    /// The commands to run, in order: those from the current step on.
    pub fn pending(&self) -> (cmds: Vec<String>)
        ensures
            cmds@.map_values(|s: String| s@) == pending_steps(self@),
            self@.current_step <= self@.steps.len() ==> cmds@.len() == self@.steps.len() - self@.current_step,
            forall|j: int| 0 <= j < cmds@.len() ==> (#[trigger] cmds@[j])@ == self@.steps[self@.current_step + j],
            self@.current_step > self@.steps.len() ==> cmds@.len() == 0,
    {
        proof {
            steps_run_from_current(self@);
        }
        let mut cmds: Vec<String> = Vec::new();
        let n = self.steps.len();
        let mut i = self.current_step;
        let ghost start = self.current_step as int;
        if i > n {
            proof {
                assert(cmds@.map_values(|s: String| s@) =~= Seq::<Seq<char>>::empty());
            }
            return cmds;
        }
        while i < n
            invariant
                start <= i <= n,
                start == self@.current_step,
                n == self@.steps.len(),
                cmds@.map_values(|s: String| s@) == self@.steps.subrange(start, i as int),
            decreases n - i,
        {
            let ghost old_map = cmds@.map_values(|s: String| s@);
            let c = self.steps[i].clone();
            cmds.push(c);
            proof {
                assert(self@.steps[i as int] == self.steps@[i as int]@);
                assert(cmds@.map_values(|s: String| s@) =~= old_map.push(c@));
                assert(self@.steps.subrange(start, i + 1) =~= self@.steps.subrange(start, i as int).push(
                    c@,
                ));
            }
            i = i + 1;
        }
        proof {
            assert forall|j: int| 0 <= j < cmds@.len() implies (#[trigger] cmds@[j])@ == self@.steps[self@.current_step
                + j] by {
                assert(cmds@.map_values(|s: String| s@)[j] == cmds@[j]@);
            }
        }
        cmds
    }

    /// [`check_step`](Self::check_step) for the result of running the
    /// pending command at `position`, `None` when it could not be run.
    pub fn check_result(position: usize, result: Option<&ExecResult>) -> (r: Result<(), usize>)
        requires
            position < usize::MAX,
        ensures
            r == (match result {
                Some(res) if res.exit_code <= 0 => Ok::<(), usize>(()),
                _ => Err::<(), usize>((position + 1) as usize),
            }),
    {
        match result {
            Some(res) => StepExecuter::check_step(position, Some(res.exit_code)),
            None => StepExecuter::check_step(position, None),
        }
    }

    /// The outcome of running the pending command at `position` (counted
    /// from 0): `None` when it could not be run, otherwise its exit code. A
    /// command that could not be run or exited with a code above 0 stops the
    /// run with its step number, `position + 1`.
    pub fn check_step(position: usize, exit_code: Option<i32>) -> (r: Result<(), usize>)
        requires
            position < usize::MAX,
        ensures
            r == (match exit_code {
                Some(c) if c <= 0 => Ok::<(), usize>(()),
                _ => Err::<(), usize>((position + 1) as usize),
            }),
    {
        match exit_code {
            Some(c) => if c > 0 {
                Err(position + 1)
            } else {
                Ok(())
            },
            None => Err(position + 1),
        }
    }
}

/// Add the steps that give root SSH access with `ssh_pub_key`: create
/// root's `.ssh` directory, then write the key as its authorized keys.
pub fn add_connection_setup_steps(executer: &mut StepExecuter, ssh_pub_key: &str)
    ensures
        final(executer)@.steps == old(executer)@.steps.push(mkdir_command()).push(
            authorize_command(ssh_pub_key@),
        ),
        final(executer)@.current_step == old(executer)@.current_step,
{
    executer.add_step("sudo mkdir /root/.ssh");
    let mut cmd = String::from_str("sudo sh -c 'echo -n \"");
    cmd.append(ssh_pub_key);
    cmd.append("\" > /root/.ssh/authorized_keys'");
    executer.add_step(cmd.as_str());
}

/// The step a setup starts from: the step an earlier setup of the same
/// machine got to, otherwise the step asked for, otherwise the first.
pub fn starting_step(existing: Option<u8>, requested: Option<u8>) -> (s: u8)
    ensures
        s == match existing {
            Some(e) => e,
            None => match requested {
                Some(r) => r,
                None => 0,
            },
        },
{
    match existing {
        Some(e) => e,
        None => match requested {
            Some(r) => r,
            None => 0,
        },
    }
}

/// The users that a board answers to out of the box.
pub open spec fn default_users() -> Seq<Seq<char>> {
    seq!["root"@, "pi"@]
}

/// The passwords that a board has out of the box.
pub open spec fn default_passwords() -> Seq<Seq<char>> {
    seq!["4321"@, "raspberry"@]
}

/// The default user and password pairs to try, every password for the first
/// user, then every password for the second.
pub fn default_credentials() -> (creds: Vec<(String, String)>)
    ensures
        creds@.len() == 4,
        forall|i: int|
            0 <= i < 4 ==> (#[trigger] creds@[i]).0@ == default_users()[i / 2] && creds@[i].1@
                == default_passwords()[i % 2],
{
    let users = ["root", "pi"];
    let passwords = ["4321", "raspberry"];
    let mut creds: Vec<(String, String)> = Vec::new();
    let mut u: usize = 0;
    while u < 2
        invariant
            u <= 2,
            users@ == seq!["root", "pi"],
            passwords@ == seq!["4321", "raspberry"],
            creds@.len() == 2 * u,
            forall|i: int|
                0 <= i < 2 * u ==> (#[trigger] creds@[i]).0@ == users@[i / 2]@ && creds@[i].1@
                    == passwords@[i % 2]@,
        decreases 2 - u,
    {
        let mut p: usize = 0;
        while p < 2
            invariant
                u < 2,
                p <= 2,
                users@ == seq!["root", "pi"],
                passwords@ == seq!["4321", "raspberry"],
                creds@.len() == 2 * u + p,
                forall|i: int|
                    0 <= i < 2 * u + p ==> (#[trigger] creds@[i]).0@ == users@[i / 2]@
                        && creds@[i].1@ == passwords@[i % 2]@,
            decreases 2 - p,
        {
            creds.push((String::from_str(users[u]), String::from_str(passwords[p])));
            p = p + 1;
        }
        u = u + 1;
    }
    creds
}

} // verus!
