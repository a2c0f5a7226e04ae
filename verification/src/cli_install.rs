//! Installing the command line launcher: where to, with which command, and what to tell.

use crate::git::apply::CommandOutput;
use crate::pathname::{join_path, under};
use crate::text::{
    chars_of, contains_seq, contains_text, decode_lossy, join2, join3, lossy_text, owned, trim,
    trimmed,
};
use vstd::prelude::*;
use vstd::string::StringExecFns;

verus! {

/// The name of the command.
pub const CMD: &'static str = "gitrx";

/// The directory that the launcher goes to where the user has to authorize it.
pub const ELEVATED_DIR: &'static str = "/usr/local/bin";

/// How an installation ended.
#[derive(Debug, Clone, PartialEq, Eq)]
pub enum InstallOutcome {
    /// The launcher is at this path.
    Installed(String),
    /// The user dismissed the prompt.
    Cancelled,
}

/// How an installation ended, as contracts speak of it.
pub enum OutcomeView {
    Installed(Seq<char>),
    Cancelled,
}

impl View for InstallOutcome {
    type V = OutcomeView;

    open spec fn view(&self) -> OutcomeView {
        match *self {
            InstallOutcome::Installed(p) => OutcomeView::Installed(p@),
            InstallOutcome::Cancelled => OutcomeView::Cancelled,
        }
    }
}

/// The directories that the launcher may go to, the first choice first.
pub fn candidate_dirs() -> (r: Vec<String>)
    ensures
        crate::text::texts(r@) == seq!["/opt/homebrew/bin"@, "/usr/local/bin"@],
{
    let mut dirs: Vec<String> = Vec::new();
    dirs.push(owned("/opt/homebrew/bin"));
    dirs.push(owned("/usr/local/bin"));
    assert(crate::text::texts(dirs@) =~= seq!["/opt/homebrew/bin"@, "/usr/local/bin"@]);
    dirs
}

/// An answer that `is_writable` gave for a directory.
pub open spec fn answered<F: Fn(&str) -> bool>(
    is_writable: F,
    dir: Seq<char>,
    answer: bool,
) -> bool {
    exists|s: &str| s@ == dir && #[trigger] call_ensures(is_writable, (s,), answer)
}

/// `is_writable` said no to every one of some directories.
pub open spec fn all_refused<F: Fn(&str) -> bool>(dirs: Seq<String>, is_writable: F) -> bool {
    forall|j: int| 0 <= j < dirs.len() ==> answered(is_writable, (#[trigger] dirs[j])@, false)
}

/// The first candidate that is a directory one can write to; none where the user has to
/// authorize the installation.
pub fn choose_install_dir<F>(candidates: &Vec<String>, is_writable: &F) -> (r: Option<
    String,
>) where F: Fn(&str) -> bool
    requires
        forall|s: &str| call_requires(*is_writable, (s,)),
    ensures
        match r {
            Some(dir) => exists|k: int|
                {
                    &&& 0 <= k < candidates@.len()
                    &&& dir@ == (#[trigger] candidates@[k])@
                    &&& answered(*is_writable, dir@, true)
                    &&& forall|j: int|
                        0 <= j < k ==> answered(*is_writable, (#[trigger] candidates@[j])@, false)
                },
            None => all_refused(candidates@, *is_writable),
        },
{
    let mut i: usize = 0;
    while i < candidates.len()
        invariant
            0 <= i <= candidates@.len(),
            forall|s: &str| call_requires(*is_writable, (s,)),
            forall|j: int|
                0 <= j < i ==> answered(*is_writable, (#[trigger] candidates@[j])@, false),
        decreases candidates@.len() - i,
    {
        let dir = candidates[i].as_str();
        let answer = is_writable(dir);
        assert(call_ensures(*is_writable, (dir,), answer));
        if answer {
            assert(answered(*is_writable, candidates@[i as int]@, true));
            return Some(owned(dir));
        }
        assert(answered(*is_writable, candidates@[i as int]@, false));
        i += 1;
    }
    None
}

/// A text with what stands in for each of its characters.
pub open spec fn replaced(s: Seq<char>, f: spec_fn(char) -> Seq<char>) -> Seq<char>
    decreases s.len(),
{
    if s.len() == 0 {
        s
    } else {
        f(s[0]) + replaced(s.drop_first(), f)
    }
}

/// What stands in for a character inside single quotes of a shell: a single quote closes them,
/// stands escaped, and opens them again.
pub open spec fn shell_char() -> spec_fn(char) -> Seq<char> {
    |c: char|
        if c == '\'' {
            seq!['\'', '\\', '\'', '\'']
        } else {
            seq![c]
        }
}

/// What stands in for a character inside an AppleScript string.
pub open spec fn script_char() -> spec_fn(char) -> Seq<char> {
    |c: char|
        if c == '\\' || c == '"' {
            seq!['\\', c]
        } else {
            seq![c]
        }
}

/// A text in single quotes for a shell.
pub open spec fn shell_quoted(s: Seq<char>) -> Seq<char> {
    "'"@ + replaced(s, shell_char()) + "'"@
}

/// `s` in single quotes for a shell.
pub fn shell_single_quote(s: &str) -> (r: String)
    ensures
        r@ == shell_quoted(s@),
{
    let cs = chars_of(s);
    let ghost f = shell_char();
    let mut out = owned("'");
    let mut i: usize = 0;
    assert(cs@.skip(0) =~= cs@);
    while i < cs.len()
        invariant
            0 <= i <= cs@.len(),
            f == shell_char(),
            out@ + replaced(cs@.skip(i as int), f) == "'"@ + replaced(cs@, f),
        decreases cs@.len() - i,
    {
        let c = cs[i];
        let ghost before = out@;
        assert(cs@.skip(i as int)[0] == c);
        assert(cs@.skip(i as int).drop_first() =~= cs@.skip(i + 1));
        if c == '\'' {
            out.push('\'');
            out.push('\\');
            out.push('\'');
            out.push('\'');
        } else {
            out.push(c);
        }
        assert(out@ =~= before + f(c));
        assert(out@ + replaced(cs@.skip(i + 1), f) =~= before + replaced(cs@.skip(i as int), f));
        i += 1;
    }
    assert(cs@.skip(cs@.len() as int) =~= Seq::<char>::empty());
    assert(out@ + replaced(cs@.skip(cs@.len() as int), f) =~= out@);
    out.append("'");
    out
}

/// `s` for the inside of an AppleScript string.
pub fn applescript_escape(s: &str) -> (r: String)
    ensures
        r@ == replaced(s@, script_char()),
{
    let cs = chars_of(s);
    let ghost f = script_char();
    let mut out = String::new();
    let mut i: usize = 0;
    assert(cs@.skip(0) =~= cs@);
    assert(out@ + replaced(cs@, f) =~= replaced(cs@, f));
    while i < cs.len()
        invariant
            0 <= i <= cs@.len(),
            f == script_char(),
            out@ + replaced(cs@.skip(i as int), f) == replaced(cs@, f),
        decreases cs@.len() - i,
    {
        let c = cs[i];
        let ghost before = out@;
        assert(cs@.skip(i as int)[0] == c);
        assert(cs@.skip(i as int).drop_first() =~= cs@.skip(i + 1));
        if c == '\\' || c == '"' {
            out.push('\\');
        }
        out.push(c);
        assert(out@ =~= before + f(c));
        assert(out@ + replaced(cs@.skip(i + 1), f) =~= before + replaced(cs@.skip(i as int), f));
        i += 1;
    }
    assert(cs@.skip(cs@.len() as int) =~= Seq::<char>::empty());
    assert(out@ + replaced(cs@.skip(cs@.len() as int), f) =~= out@);
    out
}

/// What a shell makes of quoted text: inside single quotes every character stands for itself,
/// outside of them a backslash makes the character behind it stand for itself.
pub open spec fn shell_reads(s: Seq<char>, inside: bool) -> Seq<char>
    decreases s.len(),
{
    if s.len() == 0 {
        s
    } else if s[0] == '\'' {
        shell_reads(s.drop_first(), !inside)
    } else if !inside && s[0] == '\\' && s.len() >= 2 {
        seq![s[1]] + shell_reads(s.drop_first().drop_first(), false)
    } else {
        seq![s[0]] + shell_reads(s.drop_first(), inside)
    }
}

/// What a shell makes of the inside of a quoted text, and what follows.
proof fn lemma_shell_reads(s: Seq<char>, rest: Seq<char>)
    ensures
        shell_reads(replaced(s, shell_char()) + rest, true) == s + shell_reads(rest, true),
    decreases s.len(),
{
    let f = shell_char();
    if s.len() == 0 {
        assert(replaced(s, f) + rest =~= rest);
        assert(s + shell_reads(rest, true) =~= shell_reads(rest, true));
    } else {
        let t = s.drop_first();
        lemma_shell_reads(t, rest);
        let tail = replaced(t, f) + rest;
        let all = replaced(s, f) + rest;
        assert(all =~= f(s[0]) + tail);
        assert(s + shell_reads(rest, true) =~= seq![s[0]] + (t + shell_reads(rest, true)));
        if s[0] == '\'' {
            let a1 = all.drop_first();
            let a2 = a1.drop_first().drop_first();
            assert(a1[0] == '\\' && a1[1] == '\'');
            assert(a2[0] == '\'');
            assert(a2.drop_first() =~= tail);
            assert(shell_reads(all, true) == shell_reads(a1, false));
            assert(shell_reads(a1, false) == seq!['\''] + shell_reads(a2, false));
            assert(shell_reads(a2, false) == shell_reads(tail, true));
        } else {
            assert(all[0] == s[0]);
            assert(all.drop_first() =~= tail);
        }
    }
}

/// A shell reads a quoted text as the text that was quoted, whatever it holds: nothing in it is
/// ever taken for a command.
pub proof fn law_shell_reads_quoted_text_back(s: Seq<char>)
    ensures
        shell_reads(shell_quoted(s), false) == s,
{
    reveal_strlit("'");
    let f = shell_char();
    let q = shell_quoted(s);
    let rest = seq!['\''];
    assert(q.drop_first() =~= replaced(s, f) + rest);
    lemma_shell_reads(s, rest);
    assert(rest.drop_first() =~= Seq::<char>::empty());
    assert(shell_reads(rest.drop_first(), false) == rest.drop_first());
    assert(shell_reads(rest, true) == shell_reads(rest.drop_first(), false));
    assert(s + shell_reads(rest, true) =~= s);
}

/// What AppleScript makes of the inside of a string, up to the quote that closes it; nothing
/// where no quote does.
pub open spec fn script_reads(s: Seq<char>) -> Option<Seq<char>>
    decreases s.len(),
{
    if s.len() == 0 {
        None
    } else if s[0] == '"' {
        Some(Seq::empty())
    } else if s[0] == '\\' {
        if s.len() < 2 {
            None
        } else {
            match script_reads(s.drop_first().drop_first()) {
                Some(t) => Some(seq![s[1]] + t),
                None => None,
            }
        }
    } else {
        match script_reads(s.drop_first()) {
            Some(t) => Some(seq![s[0]] + t),
            None => None,
        }
    }
}

/// AppleScript reads an escaped text, up to the quote behind it, as the text that was escaped:
/// nothing in it closes the string early.
pub proof fn law_script_reads_escaped_text_back(s: Seq<char>, rest: Seq<char>)
    ensures
        script_reads(replaced(s, script_char()) + seq!['"'] + rest) == Some(s),
    decreases s.len(),
{
    let f = script_char();
    let all = replaced(s, f) + seq!['"'] + rest;
    if s.len() == 0 {
        assert(all[0] == '"');
        assert(s =~= Seq::empty());
    } else {
        let t = s.drop_first();
        law_script_reads_escaped_text_back(t, rest);
        let tail = replaced(t, f) + seq!['"'] + rest;
        assert(all =~= f(s[0]) + tail);
        assert(s =~= seq![s[0]] + t);
        if s[0] == '\\' || s[0] == '"' {
            assert(all[0] == '\\' && all[1] == s[0]);
            assert(all.drop_first().drop_first() =~= tail);
        } else {
            assert(all[0] == s[0]);
            assert(all.drop_first() =~= tail);
        }
    }
}

/// Whether the text of a failed authorization says that the user dismissed the prompt.
pub open spec fn says_cancelled(stderr: Seq<char>) -> bool {
    contains_seq(stderr, "-128"@) || contains_seq(stderr, "User canceled"@)
}

/// Whether the text of a failed authorization says that the user dismissed the prompt.
pub fn is_user_cancellation(stderr: &str) -> (r: bool)
    ensures
        r == says_cancelled(stderr@),
{
    contains_text(stderr, "-128") || contains_text(stderr, "User canceled")
}

/// The path of the launcher in a directory.
pub fn destination(dir: &str) -> (r: String)
    ensures
        r@ == under(dir@, CMD@),
{
    join_path(dir, CMD)
}

/// The shell command that puts a file in place of the launcher.
pub open spec fn install_command(source: Seq<char>) -> Seq<char> {
    "/bin/mkdir -p "@ + shell_quoted(ELEVATED_DIR@) + " && /usr/bin/install -m 0755 "@
        + shell_quoted(source) + " "@ + shell_quoted("/usr/local/bin/gitrx"@)
}

/// The AppleScript that runs the install command once the user authorized it. The launcher's own
/// text is no part of it, only the quoted path of a copy.
pub fn elevated_script(source: &str) -> (r: String)
    ensures
        r@ == "do shell script \""@ + replaced(install_command(source@), script_char())
            + "\" with administrator privileges"@,
{
    let dir = shell_single_quote(ELEVATED_DIR);
    let src = shell_single_quote(source);
    let dst = shell_single_quote("/usr/local/bin/gitrx");
    let head = join3("/bin/mkdir -p ", dir.as_str(), " && /usr/bin/install -m 0755 ");
    let mid = join3(head.as_str(), src.as_str(), " ");
    let cmd = join2(mid.as_str(), dst.as_str());
    let escaped = applescript_escape(cmd.as_str());
    join3("do shell script \"", escaped.as_str(), "\" with administrator privileges")
}

/// What an authorized installation came to: a dismissed prompt is no failure.
pub fn elevated_outcome(out: &CommandOutput) -> (r: Result<InstallOutcome, String>)
    ensures
        if out.success {
            r matches Ok(o) && o@ == OutcomeView::Installed("/usr/local/bin/gitrx"@)
        } else if says_cancelled(lossy_text(out.stderr@)) {
            r matches Ok(o) && o@ == OutcomeView::Cancelled
        } else {
            r matches Err(m) && m@ == "Elevated install failed: "@ + (if trimmed(
                lossy_text(out.stderr@),
            ).len() == 0 {
                "authorization failed"@
            } else {
                trimmed(lossy_text(out.stderr@))
            })
        },
{
    if out.success {
        return Ok(InstallOutcome::Installed(owned("/usr/local/bin/gitrx")));
    }
    let stderr = decode_lossy(&out.stderr);
    if is_user_cancellation(stderr.as_str()) {
        return Ok(InstallOutcome::Cancelled);
    }
    let detail = trim(stderr.as_str());
    if detail.as_str().is_empty() {
        Err(join2("Elevated install failed: ", "authorization failed"))
    } else {
        Err(join2("Elevated install failed: ", detail.as_str()))
    }
}

/// What to tell the user.
#[derive(Debug, Clone, PartialEq, Eq)]
pub struct InstallReport {
    pub title: &'static str,
    pub message: String,
    pub is_error: bool,
}

/// What to tell the user of an installation; nothing where they dismissed the prompt.
pub fn install_report(result: &Result<InstallOutcome, String>) -> (r: Option<InstallReport>)
    ensures
        match *result {
            Ok(InstallOutcome::Installed(path)) => {
                &&& r matches Some(report)
                &&& report.title@ == "Command Line Tool"@
                &&& report.message@ == "Installed gitrx to "@ + path@ + ".\n\nTry: gitrx ."@
                &&& !report.is_error
            },
            Ok(InstallOutcome::Cancelled) => r is None,
            Err(reason) => {
                &&& r matches Some(report)
                &&& report.title@ == "Install Failed"@
                &&& report.message@ == "Could not install gitrx.\n\n"@ + reason@
                &&& report.is_error
            },
        },
{
    match result {
        Ok(InstallOutcome::Installed(path)) => Some(
            InstallReport {
                title: "Command Line Tool",
                message: join3("Installed gitrx to ", path.as_str(), ".\n\nTry: gitrx ."),
                is_error: false,
            },
        ),
        Ok(InstallOutcome::Cancelled) => None,
        Err(reason) => Some(
            InstallReport {
                title: "Install Failed",
                message: join2("Could not install gitrx.\n\n", reason.as_str()),
                is_error: true,
            },
        ),
    }
}

/// The launcher goes to the first candidate that one can write to, and the user has to authorize
/// the installation exactly where there is none.
pub proof fn law_first_writable_directory_is_taken<F>(
    candidates: &Vec<String>,
    is_writable: &F,
    writable: spec_fn(Seq<char>) -> bool,
    r: Option<String>,
) where F: Fn(&str) -> bool
    requires
        call_ensures(choose_install_dir::<F>, (candidates, is_writable), r),
        forall|s: &str, b: bool| #[trigger]
            call_ensures(*is_writable, (s,), b) ==> b == writable(s@),
    ensures
        r is None <==> forall|j: int| 0 <= j < candidates@.len() ==> !writable(
            (#[trigger] candidates@[j])@,
        ),
        r matches Some(dir) ==> writable(dir@) && exists|k: int|
            {
                &&& 0 <= k < candidates@.len()
                &&& (#[trigger] candidates@[k])@ == dir@
                &&& forall|j: int| 0 <= j < k ==> !writable((#[trigger] candidates@[j])@)
            },
{
    match r {
        Some(dir) => {
            let k = choose|k: int|
                {
                    &&& 0 <= k < candidates@.len()
                    &&& dir@ == (#[trigger] candidates@[k])@
                    &&& answered(*is_writable, dir@, true)
                    &&& forall|j: int|
                        0 <= j < k ==> answered(*is_writable, (#[trigger] candidates@[j])@, false)
                };
            lemma_answer(*is_writable, writable, dir@, true);
            assert forall|j: int| 0 <= j < k implies !writable((#[trigger] candidates@[j])@) by {
                lemma_answer(*is_writable, writable, candidates@[j]@, false);
            }
            assert(writable(candidates@[k]@));
        },
        None => {
            assert forall|j: int| 0 <= j < candidates@.len() implies !writable(
                (#[trigger] candidates@[j])@,
            ) by {
                lemma_answer(*is_writable, writable, candidates@[j]@, false);
            }
        },
    }
}

/// An answer of a function that always answers the same.
proof fn lemma_answer<F: Fn(&str) -> bool>(
    is_writable: F,
    writable: spec_fn(Seq<char>) -> bool,
    dir: Seq<char>,
    answer: bool,
)
    requires
        answered(is_writable, dir, answer),
        forall|s: &str, b: bool| #[trigger]
            call_ensures(is_writable, (s,), b) ==> b == writable(s@),
    ensures
        writable(dir) == answer,
{
    let s = choose|s: &str| s@ == dir && #[trigger] call_ensures(is_writable, (s,), answer);
}

/// The candidates: the directory of Homebrew before the one that may need authorization.
pub proof fn law_homebrew_comes_first(r: Vec<String>)
    requires
        call_ensures(candidate_dirs, (), r),
    ensures
        r@.len() == 2,
        r@[0]@ == "/opt/homebrew/bin"@,
        r@[1]@ == "/usr/local/bin"@,
{
    let t = crate::text::texts(r@);
    assert(t.len() == r@.len());
    assert(t[0] == r@[0]@ && t[1] == r@[1]@);
}

/// What the authorized script does, as AppleScript and then the shell read it: it runs, with
/// administrator privileges, one command that makes the directory and puts the copy there, open to
/// all to run. Whatever the path of the copy holds, it is read as that path.
pub proof fn law_script_installs_the_copy(source: &str, r: String)
    requires
        call_ensures(elevated_script, (source,), r),
    ensures
        exists|inside: Seq<char>, dir: Seq<char>, from: Seq<char>, to: Seq<char>|
            {
                &&& r@ == "do shell script \""@ + inside + "\" with administrator privileges"@
                &&& #[trigger] script_reads(inside + "\""@) == Some(
                    #[trigger] ("/bin/mkdir -p "@ + dir + " && /usr/bin/install -m 0755 "@ + from
                        + " "@ + to),
                )
                &&& shell_reads(dir, false) == "/usr/local/bin"@
                &&& shell_reads(from, false) == source@
                &&& shell_reads(to, false) == "/usr/local/bin/gitrx"@
            },
{
    reveal_strlit("\"");
    let cmd = install_command(source@);
    let inside = replaced(cmd, script_char());
    let (dir, from, to) = (
        shell_quoted("/usr/local/bin"@),
        shell_quoted(source@),
        shell_quoted("/usr/local/bin/gitrx"@),
    );
    law_shell_reads_quoted_text_back("/usr/local/bin"@);
    law_shell_reads_quoted_text_back(source@);
    law_shell_reads_quoted_text_back("/usr/local/bin/gitrx"@);
    law_script_reads_escaped_text_back(cmd, Seq::empty());
    assert(inside + seq!['"'] + Seq::<char>::empty() =~= inside + "\""@);
    assert("/bin/mkdir -p "@ + dir + " && /usr/bin/install -m 0755 "@ + from + " "@ + to == cmd);
}

/// How an authorized installation ends: with the launcher in place where the script succeeded,
/// cancelled where it says so, and else with what it printed.
pub proof fn law_dismissed_prompts_are_no_failures(
    out: &CommandOutput,
    r: Result<InstallOutcome, String>,
)
    requires
        call_ensures(elevated_outcome, (out,), r),
    ensures
        ({
            let text = lossy_text(out.stderr@);
            let cancelled = contains_seq(text, "-128"@) || contains_seq(text, "User canceled"@);
            &&& out.success ==> (r matches Ok(InstallOutcome::Installed(p)) && p@
                == "/usr/local/bin/gitrx"@)
            &&& !out.success && cancelled ==> (r matches Ok(InstallOutcome::Cancelled))
            &&& !out.success && !cancelled ==> r is Err
            &&& !out.success && !cancelled && trimmed(text).len() > 0 ==> r->Err_0@
                == "Elevated install failed: "@ + trimmed(text)
            &&& !out.success && !cancelled && trimmed(text).len() == 0 ==> r->Err_0@
                == "Elevated install failed: authorization failed"@
        }),
{
    reveal_strlit("Elevated install failed: ");
    reveal_strlit("authorization failed");
    reveal_strlit("Elevated install failed: authorization failed");
    assert("Elevated install failed: "@ + "authorization failed"@
        =~= "Elevated install failed: authorization failed"@);
}

/// What the user is told: where the launcher is, or why it is not there; nothing of a prompt that
/// they dismissed.
pub proof fn law_installations_are_reported(
    result: &Result<InstallOutcome, String>,
    r: Option<InstallReport>,
)
    requires
        call_ensures(install_report, (result,), r),
    ensures
        r is None <==> (result matches Ok(InstallOutcome::Cancelled)),
        r matches Some(report) ==> report.is_error == (result is Err),
        r matches Some(report) ==> (*result matches Ok(InstallOutcome::Installed(p))
            ==> contains_seq(report.message@, p@)),
        r matches Some(report) ==> (*result matches Err(reason) ==> reason@.is_suffix_of(
            report.message@,
        )),
{
    if let Some(report) = r {
        let m = report.message@;
        match *result {
            Ok(InstallOutcome::Installed(p)) => {
                let n = "Installed gitrx to "@.len() as int;
                assert(m.subrange(n, n + p@.len()) =~= p@);
                assert(crate::text::occurs_at(m, p@, n));
            },
            Ok(InstallOutcome::Cancelled) => {},
            Err(reason) => {
                assert(reason@ =~= m.skip(m.len() - reason@.len()));
            },
        }
    }
}

} // verus!
