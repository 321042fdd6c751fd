//! The embedded command shell: an explicit working directory, an append-only
//! ordered history of executed commands, and the directory-change built-in
//! with its sandbox rules. Commands other than the `cd` built-in are handed
//! back to the caller to spawn through the OS shell; the outcome is recorded
//! through `finish_spawn` / `finish_chdir`, so every decision here is a pure
//! function of the command text and the reported outcome.

use vstd::prelude::*;
use vstd::string::*;
use crate::text::{format_path, formatted_path, str_eq, trim_one_newline, trim_trailing_newline};

verus! {

/// One executed command: the display string of the directory it ran in, the
/// raw command text, and the captured output and error text. Immutable once
/// executed; appended to an unbounded ordered history.
pub struct CommandEntry {
    pub env: String,
    pub command: String,
    pub output: String,
    pub error: String,
}

impl CommandEntry {
    /// A fresh entry for a command about to run in the given environment,
    /// with empty output and error.
    pub fn new(env: String, command: String) -> (e: CommandEntry)
        ensures
            e.env == env,
            e.command == command,
            e.output@ == Seq::<char>::empty(),
            e.error@ == Seq::<char>::empty(),
    {
        CommandEntry { env, command, output: String::new(), error: String::new() }
    }
}

/// The fixed home directory a literal `~` expands to.
pub open spec fn home_dir() -> Seq<char> {
    "/home/penwing"@
}

/// The command text with every `~` replaced by the fixed home directory.
pub open spec fn replace_tilde(s: Seq<char>) -> Seq<char>
    decreases s.len(),
{
    if s.len() == 0 {
        Seq::empty()
    } else {
        replace_tilde(s.drop_last()) + if s.last() == '~' {
            home_dir()
        } else {
            seq![s.last()]
        }
    }
}

/// Expands `~` to the fixed home directory, per `replace_tilde`.
pub fn expand_tilde(s: &str) -> (r: String)
    ensures
        r@ == replace_tilde(s@),
{
    let n = s.unicode_len();
    let mut out = String::new();
    let mut i: usize = 0;
    while i < n
        invariant
            n == s@.len(),
            i <= n,
            out@ == replace_tilde(s@.take(i as int)),
        decreases n - i,
    {
        proof {
            assert(s@.take(i + 1).drop_last() =~= s@.take(i as int));
            assert(s@.take(i + 1).last() == s@[i as int]);
        }
        if s.get_char(i) == '~' {
            proof {
                reveal_strlit("/home/penwing");
            }
            out.append("/home/penwing");
        } else {
            let piece = s.substring_char(i, i + 1);
            proof {
                assert(piece@ =~= seq![s@[i as int]]);
            }
            out.append(piece);
        }
        i += 1;
    }
    proof {
        assert(s@.take(n as int) =~= s@);
    }
    out
}

/// Whether the command text is recognised as the directory-change built-in:
/// exactly by its two-character prefix `cd`.
pub open spec fn is_cd_command(c: Seq<char>) -> bool {
    c.len() >= 2 && c[0] == 'c' && c[1] == 'd'
}

/// The expanded target of a recognised `cd`: everything after the third
/// character, with `~` expanded.
pub open spec fn cd_target(c: Seq<char>) -> Seq<char> {
    replace_tilde(c.skip(3))
}

/// What the caller must do to complete a submitted command: nothing (the
/// shell already recorded the entry), spawn the command through the OS
/// shell, or try to enter the given directory.
pub enum ShellStep {
    Done,
    NeedsSpawn(String),
    NeedsChdir(String),
}

/// The command shell: the explicit working directory every spawned command
/// runs in, and the ordered, append-only history of executed commands.
pub struct CommandShell {
    pub working_dir: String,
    pub history: Vec<CommandEntry>,
}

impl CommandShell {
    /// The display string recorded as the environment of new entries.
    pub open spec fn env_display(&self) -> Seq<char> {
        formatted_path(self.working_dir@)
    }

    pub fn new(working_dir: String) -> (sh: CommandShell)
        ensures
            sh.working_dir == working_dir,
            sh.history@.len() == 0,
    {
        CommandShell { working_dir, history: Vec::new() }
    }

    /// Submits a command. The `cd` built-in is special-cased: a bare `cd`
    /// (anything shorter than four characters) is rejected as invalid, a
    /// target expanding to the filesystem root is denied, and any other
    /// target is handed back for the caller to enter. Everything else is
    /// handed back verbatim for spawning; the working directory never
    /// changes here, and entries are appended only for the rejected forms.
    pub fn run(&mut self, command: String) -> (r: ShellStep)
        ensures
            final(self).working_dir == old(self).working_dir,
            !is_cd_command(command@) ==> {
                &&& *final(self) == *old(self)
                &&& (r matches ShellStep::NeedsSpawn(c) && c == command)
            },
            is_cd_command(command@) && command@.len() < 4 ==> {
                &&& r is Done
                &&& final(self).history@.len() == old(self).history@.len() + 1
                &&& final(self).history@.take(old(self).history@.len() as int) == old(
                    self,
                ).history@
                &&& entry_matches(
                    final(self).history@.last(),
                    old(self).env_display(),
                    command@,
                    Seq::<char>::empty(),
                    "Invalid cd, should provide path"@,
                )
            },
            is_cd_command(command@) && command@.len() >= 4 && cd_target(command@)
                == seq!['/'] ==> {
                &&& r is Done
                &&& final(self).history@.len() == old(self).history@.len() + 1
                &&& final(self).history@.take(old(self).history@.len() as int) == old(
                    self,
                ).history@
                &&& entry_matches(
                    final(self).history@.last(),
                    old(self).env_display(),
                    command@,
                    Seq::<char>::empty(),
                    "Root access denied"@,
                )
            },
            is_cd_command(command@) && command@.len() >= 4 && cd_target(command@)
                != seq!['/'] ==> {
                &&& *final(self) == *old(self)
                &&& (r matches ShellStep::NeedsChdir(p) && p@ == cd_target(command@))
            },
    {
        let n = command.unicode_len();
        let is_cd = n >= 2 && command.as_str().get_char(0) == 'c'
            && command.as_str().get_char(1) == 'd';
        if !is_cd {
            return ShellStep::NeedsSpawn(command);
        }
        if n < 4 {
            let env = format_path(self.working_dir.as_str());
            let mut e = CommandEntry::new(env, command);
            e.error = String::from_str("Invalid cd, should provide path");
            self.history.push(e);
            proof {
                assert(final(self).history@.take(old(self).history@.len() as int)
                    =~= old(self).history@);
            }
            return ShellStep::Done;
        }
        let tail = command.as_str().substring_char(3, n);
        proof {
            assert(tail@ =~= command@.skip(3));
        }
        let target = expand_tilde(tail);
        proof {
            reveal_strlit("/");
            assert("/"@ =~= seq!['/']);
        }
        if str_eq(target.as_str(), "/") {
            let env = format_path(self.working_dir.as_str());
            let mut e = CommandEntry::new(env, command);
            e.error = String::from_str("Root access denied");
            self.history.push(e);
            proof {
                assert(final(self).history@.take(old(self).history@.len() as int)
                    =~= old(self).history@);
            }
            ShellStep::Done
        } else {
            ShellStep::NeedsChdir(target)
        }
    }

    /// Records the outcome of a spawned command: output and error are the
    /// captured streams with exactly one trailing newline trimmed from each.
    pub fn finish_spawn(&mut self, command: String, stdout: String, stderr: String)
        ensures
            final(self).working_dir == old(self).working_dir,
            final(self).history@.len() == old(self).history@.len() + 1,
            final(self).history@.take(old(self).history@.len() as int) == old(
                self,
            ).history@,
            entry_matches(
                final(self).history@.last(),
                old(self).env_display(),
                command@,
                trim_one_newline(stdout@),
                trim_one_newline(stderr@),
            ),
    {
        let env = format_path(self.working_dir.as_str());
        let mut e = CommandEntry::new(env, command);
        e.output = trim_trailing_newline(stdout.as_str());
        e.error = trim_trailing_newline(stderr.as_str());
        self.history.push(e);
        proof {
            assert(final(self).history@.take(old(self).history@.len() as int) =~= old(
                self,
            ).history@);
        }
    }

    /// Records the outcome of a directory change: on success the working
    /// directory moves to the target; on failure it is left untouched and
    /// the entry reports that the path could not be found. The entry's
    /// environment shows the directory the command was submitted from.
    pub fn finish_chdir(&mut self, command: String, path: String, ok: bool)
        ensures
            ok ==> final(self).working_dir == path,
            !ok ==> final(self).working_dir == old(self).working_dir,
            final(self).history@.len() == old(self).history@.len() + 1,
            final(self).history@.take(old(self).history@.len() as int) == old(
                self,
            ).history@,
            ok ==> entry_matches(
                final(self).history@.last(),
                old(self).env_display(),
                command@,
                "Moved to: "@ + path@,
                Seq::<char>::empty(),
            ),
            !ok ==> entry_matches(
                final(self).history@.last(),
                old(self).env_display(),
                command@,
                Seq::<char>::empty(),
                "Could not find path: "@ + path@,
            ),
    {
        let env = format_path(self.working_dir.as_str());
        let mut e = CommandEntry::new(env, command);
        if ok {
            let mut msg = String::from_str("Moved to: ");
            msg.append(path.as_str());
            e.output = msg;
            self.working_dir = path;
        } else {
            let mut msg = String::from_str("Could not find path: ");
            msg.append(path.as_str());
            e.error = msg;
        }
        self.history.push(e);
        proof {
            assert(final(self).history@.take(old(self).history@.len() as int) =~= old(
                self,
            ).history@);
        }
    }
}

/// Where a `cd` target points from a given working directory: an absolute
/// target stands as it is, a relative one is joined to the directory.
pub open spec fn resolved_target(wd: Seq<char>, p: Seq<char>) -> Seq<char> {
    if p.len() > 0 && p[0] == '/' {
        p
    } else {
        wd + seq!['/'] + p
    }
}

impl CommandShell {
    /// The filesystem path a `cd` target denotes from this shell, per
    /// `resolved_target`; the caller probes it and reports back through
    /// `finish_chdir`.
    pub fn resolve_target(&self, path: &str) -> (r: String)
        ensures
            r@ == resolved_target(self.working_dir@, path@),
    {
        let n = path.unicode_len();
        if n > 0 && path.get_char(0) == '/' {
            String::from_str(path)
        } else {
            proof {
                reveal_strlit("/");
                assert("/"@ =~= seq!['/']);
            }
            let mut out = self.working_dir.clone();
            out.append("/");
            out.append(path);
            out
        }
    }
}

/// What a history entry holds: its environment display, command text,
/// output and error.
pub open spec fn entry_matches(
    e: CommandEntry,
    env: Seq<char>,
    command: Seq<char>,
    output: Seq<char>,
    error: Seq<char>,
) -> bool {
    &&& e.env@ == env
    &&& e.command@ == command
    &&& e.output@ == output
    &&& e.error@ == error
}

} // verus!

