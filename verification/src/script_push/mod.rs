//! Sending a script to machines of a deployment that stands.

use vstd::prelude::*;
use vstd::string::StringExecFns;
use crate::utils::strmap::StringMap;
use crate::utils::text::{chars_of, number_of, parse_usize, trim, trimmed};

pub mod azure;

verus! {

/// What is kept of a machine once it is deployed.
#[derive(Debug)]
pub struct VmSummary {
    pub name: String,
    pub hostname: String,
    pub username: String,
    pub password: String,
}

impl VmSummary {
    /// A copy of the summary.
    pub fn duplicate(&self) -> (r: Self)
        ensures
            r.name@ == self.name@,
            r.hostname@ == self.hostname@,
            r.username@ == self.username@,
            r.password@ == self.password@,
    {
        VmSummary {
            name: self.name.clone(),
            hostname: self.hostname.clone(),
            username: self.username.clone(),
            password: self.password.clone(),
        }
    }
}

/// The replacements of a machine, as they were when it was deployed.
#[derive(Debug)]
pub struct ReplData {
    pub name: String,
    pub replacements: StringMap,
}

/// How a script is run on a machine.
#[derive(Clone, Copy, Debug, PartialEq, Eq, Structural)]
pub enum ScriptRunType {
    /// Over `ssh`.
    SSH,
}

/// `acc`, then the fields of `s` from place `i` on: the runs of characters
/// between blanks and tabs. `cur` is the field that has been begun.
pub open spec fn fields_from(s: Seq<char>, i: int, cur: Seq<char>, acc: Seq<Seq<char>>) -> Seq<
    Seq<char>,
>
    decreases s.len() - i,
{
    let closed = if cur.len() > 0 {
        acc.push(cur)
    } else {
        acc
    };
    if i < 0 || i >= s.len() {
        closed
    } else if s[i] == ' ' || s[i] == '\t' {
        fields_from(s, i + 1, Seq::empty(), closed)
    } else {
        fields_from(s, i + 1, cur.push(s[i]), acc)
    }
}

/// The numbers that the first `upto` fields spell; `None` where a field
/// spells no number or one above `max_val`.
pub open spec fn numbers_of(fields: Seq<Seq<char>>, max_val: usize, upto: int) -> Option<Seq<usize>>
    decreases upto,
{
    if upto <= 0 {
        Some(Seq::empty())
    } else {
        match (numbers_of(fields, max_val, upto - 1), number_of(fields[upto - 1])) {
            (Some(vs), Some(n)) => if n <= max_val {
                Some(vs.push(n as usize))
            } else {
                None
            },
            _ => None,
        }
    }
}

/// The machines that a line of input picks: the numbers that stand on it,
/// separated by blanks or tabs. `None` where the line is empty, where
/// something on it is no number, or where a number is above `max_val`.
pub open spec fn selection_of(line: Seq<char>, max_val: usize) -> Option<Seq<usize>> {
    let fields = fields_from(trimmed(line), 0, Seq::empty(), Seq::empty());
    if fields.len() == 0 {
        None
    } else {
        numbers_of(fields, max_val, fields.len() as int)
    }
}

/// The fields of a text: the runs of characters between blanks and tabs.
pub fn split_fields(chars: &Vec<char>) -> (r: Vec<Vec<char>>)
    ensures
        Seq::new(r@.len(), |i: int| r@[i]@) == fields_from(
            chars@,
            0,
            Seq::empty(),
            Seq::empty(),
        ),
{
    let mut acc: Vec<Vec<char>> = Vec::new();
    let mut cur: Vec<char> = Vec::new();
    let mut i: usize = 0;
    proof {
        assert(Seq::new(acc@.len(), |i: int| acc@[i]@) =~= Seq::<Seq<char>>::empty());
    }
    while i < chars.len()
        invariant
            i <= chars@.len(),
            fields_from(chars@, 0, Seq::empty(), Seq::empty()) == fields_from(
                chars@,
                i as int,
                cur@,
                Seq::new(acc@.len(), |i: int| acc@[i]@),
            ),
        decreases chars@.len() - i,
    {
        let c = chars[i];
        if c == ' ' || c == '\t' {
            if cur.len() > 0 {
                let ghost before = Seq::new(acc@.len(), |i: int| acc@[i]@);
                let ghost word = cur@;
                acc.push(cur);
                proof {
                    assert(Seq::new(acc@.len(), |i: int| acc@[i]@) =~= before.push(word));
                }
                cur = Vec::new();
            }
            proof {
                assert(cur@ =~= Seq::<char>::empty());
            }
        } else {
            cur.push(c);
        }
        i = i + 1;
    }
    if cur.len() > 0 {
        let ghost before = Seq::new(acc@.len(), |i: int| acc@[i]@);
        let ghost word = cur@;
        acc.push(cur);
        proof {
            assert(Seq::new(acc@.len(), |i: int| acc@[i]@) =~= before.push(word));
        }
    }
    acc
}

/// Reads the machines that a line of input picks.
pub fn parse_vm_selection(line: &str, max_val: usize) -> (r: Option<Vec<usize>>)
    ensures
        match selection_of(line@, max_val) {
            Some(vs) => r is Some && r->0@ == vs,
            None => r is None,
        },
{
    let buffer = trim(line);
    let chars = chars_of(buffer.as_str());
    let vecc = split_fields(&chars);
    let ghost fields = Seq::new(vecc@.len(), |i: int| vecc@[i]@);
    if vecc.len() == 0 {
        return None;
    }
    let mut ret: Vec<usize> = Vec::new();
    let mut k: usize = 0;
    while k < vecc.len()
        invariant
            k <= vecc@.len(),
            vecc@.len() > 0,
            fields == Seq::new(vecc@.len(), |i: int| vecc@[i]@),
            fields == fields_from(trimmed(line@), 0, Seq::empty(), Seq::empty()),
            numbers_of(fields, max_val, k as int) == Some(ret@),
        decreases vecc@.len() - k,
    {
        proof {
            assert(fields[k as int] == vecc@[k as int]@);
            if numbers_of(fields, max_val, k + 1) is None {
                lemma_numbers_none_stays(fields, max_val, k + 1, vecc@.len() as int);
            }
        }
        match parse_usize(&vecc[k]) {
            Some(num) => {
                if num <= max_val {
                    ret.push(num);
                } else {
                    return None;
                }
            },
            None => {
                return None;
            },
        }
        k = k + 1;
    }
    Some(ret)
}

/// Once a field spells no number of the range, more fields do not help.
pub proof fn lemma_numbers_none_stays(fields: Seq<Seq<char>>, max_val: usize, a: int, b: int)
    requires
        0 <= a <= b,
        numbers_of(fields, max_val, a) is None,
    ensures
        numbers_of(fields, max_val, b) is None,
    decreases b - a,
{
    if a < b {
        lemma_numbers_none_stays(fields, max_val, a, b - 1);
    }
}

/// The options that every call of `ssh` and `scp` gets behind the user's
/// own: the host's key is not checked and not kept.
pub open spec fn ssh_options() -> Seq<char> {
    " -oStrictHostKeyChecking=no -oUserKnownHostsFile=/dev/null "@
}

/// The command that runs `remote_command` on a machine over `ssh`.
pub fn ssh_command(custom_args: &str, user: &str, host: &str, remote_command: &str) -> (r: String)
    ensures
        r@ == ssh_text(custom_args@, user@, host@, remote_command@),
{
    let mut cmd = String::from_str("ssh ");
    cmd.append(custom_args);
    cmd.append(" -oStrictHostKeyChecking=no -oUserKnownHostsFile=/dev/null ");
    cmd.append(user);
    cmd.append("@");
    cmd.append(host);
    cmd.append(" \"");
    cmd.append(remote_command);
    cmd.append("\"");
    cmd
}

/// The command that copies `source` to `target` on a machine with `scp`;
/// `flags` are what stands between the name of the tool and the user's
/// options, such as `-r `.
pub fn scp_command(
    flags: &str,
    custom_args: &str,
    source: &str,
    user: &str,
    host: &str,
    target: &str,
) -> (r: String)
    ensures
        r@ == scp_text(flags@, custom_args@, source@, user@, host@, target@),
{
    let mut cmd = String::from_str("scp ");
    cmd.append(flags);
    cmd.append(custom_args);
    cmd.append(" -oStrictHostKeyChecking=no -oUserKnownHostsFile=/dev/null ");
    cmd.append(source);
    cmd.append(" ");
    cmd.append(user);
    cmd.append("@");
    cmd.append(host);
    cmd.append(":");
    cmd.append(target);
    cmd
}

/// One thing to do when a script is pushed to a machine.
#[derive(Debug)]
pub enum PushStep {
    /// Run this command; give up if it fails.
    Run(String),
    /// Replace the tokens in the files of this directory with the machine's
    /// replacements, into the directory `repl_temp` beside it.
    PrepareReplaced(String),
    /// Run this command; go on whether it fails or not.
    Try(String),
}

/// The text of a name followed by a suffix.
fn joined(a: &str, b: &str, c: &str) -> (r: String)
    ensures
        r@ == a@ + b@ + c@,
{
    let mut s = String::from_str(a);
    s.append(b);
    s.append(c);
    s
}

/// One thing to do, as plain values.
pub enum PushStepView {
    Run(Seq<char>),
    PrepareReplaced(Seq<char>),
    Try(Seq<char>),
}

impl View for PushStep {
    type V = PushStepView;

    open spec fn view(&self) -> PushStepView {
        match *self {
            PushStep::Run(c) => PushStepView::Run(c@),
            PushStep::PrepareReplaced(d) => PushStepView::PrepareReplaced(d@),
            PushStep::Try(c) => PushStepView::Try(c@),
        }
    }
}

/// The steps as plain values.
pub open spec fn step_views(v: Seq<PushStep>) -> Seq<PushStepView> {
    Seq::new(v.len(), |i: int| v[i]@)
}

/// The text of the command that runs `remote_command` on a machine.
pub open spec fn ssh_text(
    custom_args: Seq<char>,
    user: Seq<char>,
    host: Seq<char>,
    remote_command: Seq<char>,
) -> Seq<char> {
    "ssh "@ + custom_args + ssh_options() + user + "@"@ + host + " \""@ + remote_command + "\""@
}

/// The text of the command that copies `source` to `target` on a machine.
pub open spec fn scp_text(
    flags: Seq<char>,
    custom_args: Seq<char>,
    source: Seq<char>,
    user: Seq<char>,
    host: Seq<char>,
    target: Seq<char>,
) -> Seq<char> {
    "scp "@ + flags + custom_args + ssh_options() + source + " "@ + user + "@"@ + host + ":"@
        + target
}

/// What is done to push the script set `dep` to a machine: what is left of
/// an earlier push is removed there as the superuser; the directory is made;
/// the script is copied; the data are copied where there are any; the files
/// with tokens are replaced, copied, and their copies removed here, where
/// there are any; and the script is run as the superuser.
pub open spec fn push_plan(
    vm: VmSummary,
    dep: Seq<char>,
    args: Seq<char>,
    has_data: bool,
    has_replace: bool,
) -> Seq<PushStepView> {
    let user = vm.username@;
    let host = vm.hostname@;
    seq![
        PushStepView::Run(
            ssh_text(
                args,
                user,
                host,
                "cd ~; echo "@ + vm.password@ + " | sudo -S rm -rf push_scripts/"@ + dep,
            ),
        ),
        PushStepView::Run(
            ssh_text(args, user, host, "cd ~; mkdir -p push_scripts/"@ + dep + ""@),
        ),
        PushStepView::Run(
            scp_text(
                ""@,
                args,
                "push_scripts/"@ + dep + "/run.sh"@,
                user,
                host,
                "~/push_scripts/"@ + dep + "/"@,
            ),
        ),
    ] + (if has_data {
        seq![
            PushStepView::Run(
                scp_text("-r "@, args, "push_scripts/"@ + dep + "/data/*"@, user, host, "~/"@),
            ),
        ]
    } else {
        Seq::empty()
    }) + (if has_replace {
        seq![
            PushStepView::PrepareReplaced("push_scripts/"@ + dep + "/replace"@),
            PushStepView::Run(
                scp_text(""@, args, "push_scripts/"@ + dep + "/repl_temp/*"@, user, host, "~/"@),
            ),
            PushStepView::Try("rm -rf push_scripts/"@ + dep + "/repl_temp"@),
        ]
    } else {
        Seq::empty()
    }) + seq![
        PushStepView::Run(
            ssh_text(
                args,
                user,
                host,
                "cd ~; echo "@ + vm.password@ + " | sudo -S sh ~/push_scripts/"@ + dep
                    + "/run.sh"@,
            ),
        ),
    ]
}

/// Lists what is done to push the script set `deployment_name` to a
/// machine. `has_data` and `has_replace` say whether the script set holds
/// data and files with tokens.
pub fn send_script_ssh(
    vm_summary: &VmSummary,
    deployment_name: &str,
    custom_args: &str,
    has_data: bool,
    has_replace: bool,
) -> (r: Vec<PushStep>)
    ensures
        step_views(r@) == push_plan(
            *vm_summary,
            deployment_name@,
            custom_args@,
            has_data,
            has_replace,
        ),
{
    let user = vm_summary.username.as_str();
    let host = vm_summary.hostname.as_str();
    let mut steps: Vec<PushStep> = Vec::new();
    let mut remove = joined("cd ~; echo ", vm_summary.password.as_str(), " | sudo -S rm -rf push_scripts/");
    remove.append(deployment_name);
    steps.push(PushStep::Run(ssh_command(custom_args, user, host, remove.as_str())));
    let make = joined("cd ~; mkdir -p push_scripts/", deployment_name, "");
    steps.push(PushStep::Run(ssh_command(custom_args, user, host, make.as_str())));
    let script = joined("push_scripts/", deployment_name, "/run.sh");
    let target = joined("~/push_scripts/", deployment_name, "/");
    steps.push(
        PushStep::Run(scp_command("", custom_args, script.as_str(), user, host, target.as_str())),
    );
    if has_data {
        let data = joined("push_scripts/", deployment_name, "/data/*");
        steps.push(PushStep::Run(scp_command("-r ", custom_args, data.as_str(), user, host, "~/")));
    }
    if has_replace {
        steps.push(PushStep::PrepareReplaced(joined("push_scripts/", deployment_name, "/replace")));
        let replaced = joined("push_scripts/", deployment_name, "/repl_temp/*");
        steps.push(
            PushStep::Run(scp_command("", custom_args, replaced.as_str(), user, host, "~/")),
        );
        steps.push(PushStep::Try(joined("rm -rf push_scripts/", deployment_name, "/repl_temp")));
    }
    let mut run = joined("cd ~; echo ", vm_summary.password.as_str(), " | sudo -S sh ~/push_scripts/");
    run.append(deployment_name);
    run.append("/run.sh");
    steps.push(PushStep::Run(ssh_command(custom_args, user, host, run.as_str())));
    proof {
        assert(step_views(steps@) =~= push_plan(
            *vm_summary,
            deployment_name@,
            custom_args@,
            has_data,
            has_replace,
        ));
    }
    steps
}

} // verus!
