//! The steps of a deployment: what is decided between the calls to the
//! provider and to the machines, and the texts that those calls are given.

use vstd::prelude::*;
use vstd::string::StringExecFns;
use crate::lasir::machines::LogicalSystem;
use crate::azuresir::translator::network_fits;
use crate::pasir::connections::{
    cover_upto, cursor_after, subnet_start, AllocationError, Subnet, ADDRESS_LIMIT,
};
use crate::pasir::translator::{
    lasir_network_to_pasir_network, lasir_vms_to_pasir_vms, list_sizes, same_machine,
};
use crate::pasir::machines::Vm;
use crate::script_push::{scp_command, scp_text, ssh_command, ssh_text, VmSummary};
use crate::utils::roles::{
    complete_view, create_ip_string_replacement_map, create_vm_local_ip_mapping, mapping_upto,
    picks_match, role_tokens, RolePair, RolePairs, RolesError,
};
use crate::utils::math::{log2_ceil, log2_ceil_spec};
use crate::utils::replace::{expand, replace, unknown_tokens, ReplaceFailPolicy, Replaced};
use crate::utils::run_parser::StepType;
use crate::utils::strmap::StringMap;
use crate::utils::text::{chars_of, decimal, push_char, push_decimal, views};
use crate::orchestrator::{ORCH_PASS, ORCH_USER};

pub mod azure_cli;

verus! {

/// The first part of the file name of a script of a run phase.
pub const RUN_STEP_PREFIX: &'static str = "step_run";

/// The first part of the file name of a script of a setup phase.
pub const SETUP_STEP_PREFIX: &'static str = "step_setup";

/// How often the set-up of the webserver is tried.
pub const WEBSERVER_ATTEMPTS: usize = 4;

/// How often a call of `ssh` or `scp` is tried.
pub const SHELL_ATTEMPTS: usize = 8;

/// The pause between the starts of two machines, in milliseconds: two
/// seconds for each bit that the number of machines takes.
pub fn determine_pause_between_vms(vm_num: usize) -> (r: u64)
    requires
        0 < vm_num < 0x8000_0000,
    ensures
        r == 2 * 1000 * log2_ceil_spec(vm_num as nat),
{
    let base: u64 = 1000;
    2 * base * (log2_ceil(vm_num as i32) as u64)
}

/// The first part of the file name of a script of a phase of the given kind.
pub open spec fn step_prefix(kind: StepType) -> Seq<char> {
    match kind {
        StepType::Run => RUN_STEP_PREFIX@,
        StepType::Setup => SETUP_STEP_PREFIX@,
    }
}

/// The file name of the script of the phase at place `index`.
pub open spec fn step_script_name(kind: StepType, index: nat) -> Seq<char> {
    step_prefix(kind) + "."@ + decimal(index) + ".sh"@
}

/// The file name of the script of the phase at place `index`.
pub fn step_file_name(kind: StepType, index: usize) -> (r: String)
    ensures
        r@ == step_script_name(kind, index as nat),
{
    let mut name = match kind {
        StepType::Run => String::from_str(RUN_STEP_PREFIX),
        StepType::Setup => String::from_str(SETUP_STEP_PREFIX),
    };
    name.append(".");
    push_decimal(&mut name, index as u64);
    name.append(".sh");
    name
}

/// The path under which the script of a machine for the phase at place
/// `index` is kept until it is sent.
pub fn step_file_path(machine: &str, kind: StepType, index: usize) -> (r: String)
    ensures
        r@ == "test-deployment/"@ + machine@ + "/"@ + step_script_name(kind, index as nat),
{
    let mut path = String::from_str("test-deployment/");
    path.append(machine);
    path.append("/");
    path.append(step_file_name(kind, index).as_str());
    path
}

/// The command that runs the script of a phase on a machine, as the given
/// user.
pub fn step_run_command(user: &str, kind: StepType, index: usize) -> (r: String)
    ensures
        r@ == "cd /home/"@ + user@ + "; sudo sh "@ + step_script_name(kind, index as nat),
{
    let mut cmd = String::from_str("cd /home/");
    cmd.append(user);
    cmd.append("; sudo sh ");
    cmd.append(step_file_name(kind, index).as_str());
    cmd
}

/// The map with the four global replacements for the public host name of a
/// machine: the tokens `machines/<name>/public_ip`,
/// `machines/<name>/public_ip_address`, `machines/<name>/public_host` and
/// `machines/<name>/public_hostname`.
pub open spec fn with_host_tokens(
    map: Map<Seq<char>, Seq<char>>,
    name: Seq<char>,
    host: Seq<char>,
) -> Map<Seq<char>, Seq<char>> {
    map.insert("machines/"@ + name + "/public_ip"@, host).insert(
        "machines/"@ + name + "/public_ip_address"@,
        host,
    ).insert("machines/"@ + name + "/public_host"@, host).insert(
        "machines/"@ + name + "/public_hostname"@,
        host,
    )
}

/// A token of a machine: `machines/`, the machine's name, and `what`.
fn machine_token(name: &str, what: &str) -> (r: String)
    ensures
        r@ == "machines/"@ + name@ + what@,
{
    let mut t = String::from_str("machines/");
    t.append(name);
    t.append(what);
    t
}

/// Records the public host name of a machine in the map of global
/// replacements.
pub fn global_repl_host(map: &mut StringMap, machine_name: &str, public_hostname: &str)
    requires
        old(map).wf(),
    ensures
        final(map).wf(),
        final(map)@ == with_host_tokens(old(map)@, machine_name@, public_hostname@),
{
    map.insert(machine_token(machine_name, "/public_ip"), String::from_str(public_hostname));
    map.insert(
        machine_token(machine_name, "/public_ip_address"),
        String::from_str(public_hostname),
    );
    map.insert(machine_token(machine_name, "/public_host"), String::from_str(public_hostname));
    map.insert(
        machine_token(machine_name, "/public_hostname"),
        String::from_str(public_hostname),
    );
}

/// The map with the replacements that every machine has for itself: ten
/// spellings of the token for its name, four for the user's name, and four
/// for the password. Of the latter only `password` gives the password;
/// `PASSWORD`, `pass` and `PASS` give the user's name.
pub open spec fn with_vm_tokens(
    map: Map<Seq<char>, Seq<char>>,
    name: Seq<char>,
    user: Seq<char>,
    password: Seq<char>,
) -> Map<Seq<char>, Seq<char>> {
    map.insert("NAME"@, name).insert("name"@, name).insert("VM_NAME"@, name).insert(
        "vm_name"@,
        name,
    ).insert("machine_name"@, name).insert("MACHINE_NAME"@, name).insert("vm name"@, name).insert(
        "machine name"@,
        name,
    ).insert("VM NAME"@, name).insert("MACHINE NAME"@, name).insert("USER"@, user).insert(
        "user"@,
        user,
    ).insert("USERNAME"@, user).insert("username"@, user).insert("password"@, password).insert(
        "PASSWORD"@,
        user,
    ).insert("pass"@, user).insert("PASS"@, user)
}

/// Adds to a machine's map the replacements that it has for itself.
pub fn add_vm_tokens(map: &mut StringMap, vm: &Vm)
    requires
        old(map).wf(),
    ensures
        final(map).wf(),
        final(map)@ == with_vm_tokens(old(map)@, vm.name@, vm.auth.user@, vm.auth.password@),
{
    map.insert(String::from_str("NAME"), vm.name.clone());
    map.insert(String::from_str("name"), vm.name.clone());
    map.insert(String::from_str("VM_NAME"), vm.name.clone());
    map.insert(String::from_str("vm_name"), vm.name.clone());
    map.insert(String::from_str("machine_name"), vm.name.clone());
    map.insert(String::from_str("MACHINE_NAME"), vm.name.clone());
    map.insert(String::from_str("vm name"), vm.name.clone());
    map.insert(String::from_str("machine name"), vm.name.clone());
    map.insert(String::from_str("VM NAME"), vm.name.clone());
    map.insert(String::from_str("MACHINE NAME"), vm.name.clone());
    map.insert(String::from_str("USER"), vm.auth.user.clone());
    map.insert(String::from_str("user"), vm.auth.user.clone());
    map.insert(String::from_str("USERNAME"), vm.auth.user.clone());
    map.insert(String::from_str("username"), vm.auth.user.clone());
    map.insert(String::from_str("password"), vm.auth.password.clone());
    map.insert(String::from_str("PASSWORD"), vm.auth.user.clone());
    map.insert(String::from_str("pass"), vm.auth.user.clone());
    map.insert(String::from_str("PASS"), vm.auth.user.clone());
}

/// The replacements of one machine: the global ones, then the machine's
/// own, which take the place of global ones with the same token.
pub fn merged_replacements(global: &StringMap, vm_specific: &StringMap) -> (r: StringMap)
    requires
        global.wf(),
        vm_specific.wf(),
    ensures
        r.wf(),
        r@ == global@.union_prefer_right(vm_specific@),
{
    let mut merged = StringMap::new();
    merged.extend(global);
    merged.extend(vm_specific);
    proof {
        assert(merged@ =~= global@.union_prefer_right(vm_specific@));
    }
    merged
}

/// The text with each single quote doubled.
pub open spec fn escaped(s: Seq<char>) -> Seq<char>
    decreases s.len(),
{
    if s.len() == 0 {
        Seq::empty()
    } else {
        escaped(s.drop_last()) + if s.last() == '\'' {
            seq!['\'', '\'']
        } else {
            seq![s.last()]
        }
    }
}

/// Appends `s` to `out`, with each single quote doubled.
pub fn push_escaped(out: &mut String, s: &str)
    ensures
        final(out)@ == old(out)@ + escaped(s@),
{
    let chars = chars_of(s);
    let mut k: usize = 0;
    proof {
        assert(chars@.subrange(0, 0) =~= Seq::<char>::empty());
        assert(old(out)@ + Seq::<char>::empty() =~= old(out)@);
    }
    while k < chars.len()
        invariant
            k <= chars@.len(),
            chars@ == s@,
            out@ == old(out)@ + escaped(chars@.subrange(0, k as int)),
        decreases chars@.len() - k,
    {
        let c = chars[k];
        let ghost before = out@;
        proof {
            let pre1 = chars@.subrange(0, k + 1);
            assert(pre1.drop_last() =~= chars@.subrange(0, k as int));
            assert(pre1.last() == c);
        }
        if c == '\'' {
            push_char(out, '\'');
            push_char(out, '\'');
            proof {
                assert(out@ =~= before + seq!['\'', '\'']);
            }
        } else {
            push_char(out, c);
            proof {
                assert(out@ =~= before + seq![c]);
            }
        }
        proof {
            assert(out@ =~= old(out)@ + escaped(chars@.subrange(0, k + 1)));
        }
        k = k + 1;
    }
    proof {
        assert(chars@.subrange(0, k as int) =~= chars@);
    }
}

/// The lines of the first `upto` replacements: each token and its value in
/// single quotes, with the single quotes inside them doubled.
pub open spec fn replacement_lines(entries: Seq<(Seq<char>, Seq<char>)>, upto: int) -> Seq<char>
    decreases upto,
{
    if upto <= 0 {
        Seq::empty()
    } else {
        replacement_lines(entries, upto - 1) + "        '"@ + escaped(entries[upto - 1].0) + "': '"@
            + escaped(entries[upto - 1].1) + "',\n"@
    }
}

/// The record of the replacements of one machine, as it stands in the file
/// of replacements.
pub open spec fn replacement_record(vm_name: Seq<char>, entries: Seq<(Seq<char>, Seq<char>)>) -> Seq<
    char,
> {
    "  {\n"@ + "    name: "@ + vm_name + ",\n"@ + "    replacements:\n"@ + "      {\n"@
        + replacement_lines(entries, entries.len() as int) + "      },\n"@ + "  },\n"@
}

/// Writes the record of the replacements of one machine.
pub fn generate_replacement_yml(vm_name: &str, replacement_map: &StringMap) -> (r: String)
    requires
        replacement_map.wf(),
    ensures
        r@ == replacement_record(vm_name@, replacement_map.entries()),
{
    let mut ret = String::new();
    ret.append("  {\n");
    ret.append("    name: ");
    ret.append(vm_name);
    ret.append(",\n");
    ret.append("    replacements:\n");
    ret.append("      {\n");
    let ghost head = ret@;
    let ghost entries = replacement_map.entries();
    let mut k: usize = 0;
    proof {
        assert(head + Seq::<char>::empty() =~= head);
    }
    while k < replacement_map.len()
        invariant
            k <= entries.len(),
            entries == replacement_map.entries(),
            replacement_map.wf(),
            ret@ == head + replacement_lines(entries, k as int),
        decreases entries.len() - k,
    {
        ret.append("        '");
        push_escaped(&mut ret, replacement_map.key_at(k).as_str());
        ret.append("': '");
        push_escaped(&mut ret, replacement_map.value_at(k).as_str());
        ret.append("',\n");
        proof {
            assert(ret@ =~= head + replacement_lines(entries, k + 1));
        }
        k = k + 1;
    }
    ret.append("      },\n");
    ret.append("  },\n");
    proof {
        assert(ret@ =~= replacement_record(vm_name@, entries));
    }
    ret
}

/// The commands with which a machine fetches its files from the webserver:
/// it goes to the user's home, fetches each of its own files and each file of
/// the common data, unpacks its archive, makes the user the owner of
/// everything, and removes the archive.
pub open spec fn asset_pull_text(
    vm_name: Seq<char>,
    user: Seq<char>,
    ws_ip: Seq<char>,
    files: Seq<Seq<char>>,
    common: Seq<Seq<char>>,
) -> Seq<char> {
    "cd /home/"@ + user + "\n"@ + fetch_lines(ws_ip, vm_name, files, files.len() as int)
        + fetch_lines(ws_ip, "common_data"@, common, common.len() as int) + "tar xzf "@ + vm_name
        + ".tgz\n"@ + "sudo chown "@ + user + ":"@ + user + " ./*\n"@ + "rm -f "@ + vm_name
        + ".tgz\n"@
}

/// The commands that fetch the first `upto` files of a directory of the
/// webserver.
pub open spec fn fetch_lines(ws_ip: Seq<char>, dir: Seq<char>, files: Seq<Seq<char>>, upto: int) -> Seq<
    char,
>
    decreases upto,
{
    if upto <= 0 {
        Seq::empty()
    } else {
        fetch_lines(ws_ip, dir, files, upto - 1) + "wget http://"@ + ws_ip + ":8000/"@ + dir + "/"@
            + files[upto - 1] + "\n"@
    }
}

/// Appends the commands that fetch the given files of a directory of the
/// webserver.
fn push_fetch_lines(out: &mut String, ws_ip: &str, dir: &str, files: &Vec<String>)
    ensures
        final(out)@ == old(out)@ + fetch_lines(ws_ip@, dir@, views(files@), files@.len() as int),
{
    let mut k: usize = 0;
    proof {
        assert(old(out)@ + Seq::<char>::empty() =~= old(out)@);
    }
    while k < files.len()
        invariant
            k <= files@.len(),
            out@ == old(out)@ + fetch_lines(ws_ip@, dir@, views(files@), k as int),
        decreases files@.len() - k,
    {
        out.append("wget http://");
        out.append(ws_ip);
        out.append(":8000/");
        out.append(dir);
        out.append("/");
        out.append(files[k].as_str());
        out.append("\n");
        proof {
            assert(views(files@)[k as int] == files@[k as int]@);
            assert(out@ =~= old(out)@ + fetch_lines(ws_ip@, dir@, views(files@), k + 1));
        }
        k = k + 1;
    }
}

/// Writes the commands with which a machine fetches its files from the
/// webserver. `files` are the machine's own files there; `common_data` the
/// files of the common data that it asks for, if it asks for any.
pub fn get_all_vm_files_v2(
    vm_name: &str,
    vm_username: &str,
    ws_ip: &str,
    files: &Vec<String>,
    common_data: &Option<Vec<String>>,
) -> (r: String)
    ensures
        r@ == asset_pull_text(
            vm_name@,
            vm_username@,
            ws_ip@,
            views(files@),
            match *common_data {
                Some(cd) => views(cd@),
                None => Seq::empty(),
            },
        ),
{
    let mut get_script = String::new();
    get_script.append("cd /home/");
    get_script.append(vm_username);
    get_script.append("\n");
    push_fetch_lines(&mut get_script, ws_ip, vm_name, files);
    match common_data {
        Some(cd) => {
            push_fetch_lines(&mut get_script, ws_ip, "common_data", cd);
        },
        None => {
            proof {
                assert(get_script@ + Seq::<char>::empty() =~= get_script@);
            }
        },
    }
    get_script.append("tar xzf ");
    get_script.append(vm_name);
    get_script.append(".tgz\n");
    get_script.append("sudo chown ");
    get_script.append(vm_username);
    get_script.append(":");
    get_script.append(vm_username);
    get_script.append(" ./*\n");
    get_script.append("rm -f ");
    get_script.append(vm_name);
    get_script.append(".tgz\n");
    proof {
        assert(get_script@ =~= asset_pull_text(
            vm_name@,
            vm_username@,
            ws_ip@,
            views(files@),
            match *common_data {
                Some(cd) => views(cd@),
                None => Seq::empty(),
            },
        ));
    }
    get_script
}

/// The place of the last of the first `upto` machines with the given name;
/// -1 where none has it.
pub open spec fn last_vm_named(vms: Seq<Vm>, name: Seq<char>, upto: int) -> int
    decreases upto,
{
    if upto <= 0 {
        -1
    } else if vms[upto - 1].name@ == name {
        upto - 1
    } else {
        last_vm_named(vms, name, upto - 1)
    }
}

/// The place of the last machine with the given name, if there is one.
pub fn find_vm(vms: &Vec<Vm>, name: &String) -> (r: Option<usize>)
    ensures
        match r {
            Some(i) => i == last_vm_named(vms@, name@, vms@.len() as int) && i < vms@.len(),
            None => last_vm_named(vms@, name@, vms@.len() as int) == -1,
        },
{
    let mut k: usize = vms.len();
    while k > 0
        invariant
            k <= vms@.len(),
            last_vm_named(vms@, name@, vms@.len() as int) == last_vm_named(vms@, name@, k as int),
        decreases k,
    {
        if vms[k - 1].name == *name {
            return Some(k - 1);
        }
        k = k - 1;
    }
    None
}

/// The place of the first entry at or behind `from` that names no machine;
/// the number of entries where there is none.
pub open spec fn undeclared_entry(vms: Seq<Vm>, entries: Seq<(Seq<char>, Seq<char>)>, from: int) -> int
    decreases entries.len() - from,
{
    if from < 0 || from >= entries.len() {
        entries.len() as int
    } else if last_vm_named(vms, entries[from].0, vms.len() as int) < 0 {
        from
    } else {
        undeclared_entry(vms, entries, from + 1)
    }
}

/// The place of the first phase at or behind `from` that names a machine
/// which is none; the number of phases where there is none.
pub open spec fn undeclared_step(vms: Seq<Vm>, steps: Seq<(StepType, StringMap)>, from: int) -> int
    decreases steps.len() - from,
{
    if from < 0 || from >= steps.len() {
        steps.len() as int
    } else if undeclared_entry(vms, steps[from].1.entries(), 0) < steps[from].1.entries().len() {
        from
    } else {
        undeclared_step(vms, steps, from + 1)
    }
}

/// The phase and the name of the first machine that a run list names and
/// the system does not have.
pub fn find_undeclared_machine(vms: &Vec<Vm>, run_steps: &Vec<(StepType, StringMap)>) -> (r: Option<
    (usize, String),
>)
    requires
        forall|i: int| 0 <= i < run_steps@.len() ==> (#[trigger] run_steps@[i]).1.wf(),
    ensures
        match r {
            Some((step, name)) => {
                &&& step == undeclared_step(vms@, run_steps@, 0)
                &&& step < run_steps@.len()
                &&& name@ == run_steps@[step as int].1.entries()[undeclared_entry(
                    vms@,
                    run_steps@[step as int].1.entries(),
                    0,
                )].0
            },
            None => undeclared_step(vms@, run_steps@, 0) == run_steps@.len(),
        },
{
    let mut s: usize = 0;
    while s < run_steps.len()
        invariant
            s <= run_steps@.len(),
            forall|i: int| 0 <= i < run_steps@.len() ==> (#[trigger] run_steps@[i]).1.wf(),
            undeclared_step(vms@, run_steps@, 0) == undeclared_step(vms@, run_steps@, s as int),
        decreases run_steps@.len() - s,
    {
        let steps = &run_steps[s].1;
        let ghost entries = steps.entries();
        let mut e: usize = 0;
        while e < steps.len()
            invariant
                e <= entries.len(),
                s < run_steps@.len(),
                *steps == run_steps@[s as int].1,
                undeclared_step(vms@, run_steps@, 0) == undeclared_step(vms@, run_steps@, s as int),
                entries == steps.entries(),
                steps.wf(),
                undeclared_entry(vms@, entries, 0) == undeclared_entry(vms@, entries, e as int),
            decreases entries.len() - e,
        {
            let name = steps.key_at(e);
            if find_vm(vms, name).is_none() {
                proof {
                    assert(undeclared_entry(vms@, entries, e as int) == e);
                    assert(undeclared_entry(vms@, run_steps@[s as int].1.entries(), 0) == e);
                    assert(undeclared_step(vms@, run_steps@, s as int) == s);
                }
                return Some((s, name.clone()));
            }
            e = e + 1;
        }
        s = s + 1;
    }
    None
}

/// The script of a machine for one phase, ready to be written.
#[derive(Debug)]
pub struct StepScript {
    /// Where the script is kept until it is sent.
    pub path: String,
    /// The script with its tokens replaced.
    pub text: String,
    /// The tokens of the script that have no replacement.
    pub missing: Vec<String>,
}

/// A script as plain values.
pub struct StepScriptView {
    pub path: Seq<char>,
    pub text: Seq<char>,
    pub missing: Seq<Seq<char>>,
}

impl View for StepScript {
    type V = StepScriptView;

    open spec fn view(&self) -> StepScriptView {
        StepScriptView { path: self.path@, text: self.text@, missing: views(self.missing@) }
    }
}

/// The scripts as plain values.
pub open spec fn script_views(v: Seq<StepScript>) -> Seq<StepScriptView> {
    Seq::new(v.len(), |i: int| v[i]@)
}

/// The scripts of the first `upto` entries of the phase at place `index`:
/// each entry's script with the replacements of the last machine that has the
/// entry's name.
pub open spec fn scripts_of_step(
    vms: Seq<Vm>,
    maps: Seq<StringMap>,
    kind: StepType,
    index: nat,
    entries: Seq<(Seq<char>, Seq<char>)>,
    upto: int,
) -> Seq<StepScriptView>
    decreases upto,
{
    if upto <= 0 {
        Seq::empty()
    } else {
        let e = entries[upto - 1];
        let map = maps[last_vm_named(vms, e.0, vms.len() as int)]@;
        scripts_of_step(vms, maps, kind, index, entries, upto - 1).push(
            StepScriptView {
                path: "test-deployment/"@ + e.0 + "/"@ + step_script_name(kind, index),
                text: expand(e.1, map),
                missing: unknown_tokens(e.1, map),
            },
        )
    }
}

/// The scripts of the first `upto` phases, phase after phase.
pub open spec fn scripts_of_steps(
    vms: Seq<Vm>,
    maps: Seq<StringMap>,
    steps: Seq<(StepType, StringMap)>,
    upto: int,
) -> Seq<StepScriptView>
    decreases upto,
{
    if upto <= 0 {
        Seq::empty()
    } else {
        scripts_of_steps(vms, maps, steps, upto - 1) + scripts_of_step(
            vms,
            maps,
            steps[upto - 1].0,
            (upto - 1) as nat,
            steps[upto - 1].1.entries(),
            steps[upto - 1].1.entries().len() as int,
        )
    }
}

/// Where no phase at or behind `from` names an unknown machine, the phase at
/// `step` names none.
pub proof fn lemma_all_declared(vms: Seq<Vm>, steps: Seq<(StepType, StringMap)>, from: int, step: int)
    requires
        0 <= from <= step < steps.len(),
        undeclared_step(vms, steps, from) == steps.len(),
    ensures
        undeclared_entry(vms, steps[step].1.entries(), 0) == steps[step].1.entries().len(),
    decreases step - from,
{
    lemma_undeclared_entry_bound(vms, steps[from].1.entries(), 0);
    if from < step {
        lemma_all_declared(vms, steps, from + 1, step);
    }
}

/// The place of the first entry that names no machine is no place behind the
/// entries.
pub proof fn lemma_undeclared_entry_bound(
    vms: Seq<Vm>,
    entries: Seq<(Seq<char>, Seq<char>)>,
    from: int,
)
    requires
        0 <= from,
    ensures
        undeclared_entry(vms, entries, from) <= entries.len(),
    decreases entries.len() - from,
{
    if from < entries.len() && last_vm_named(vms, entries[from].0, vms.len() as int) >= 0 {
        lemma_undeclared_entry_bound(vms, entries, from + 1);
    }
}

/// Where no entry at or behind `from` names an unknown machine, the entry at
/// `e` names a machine.
pub proof fn lemma_entry_declared(
    vms: Seq<Vm>,
    entries: Seq<(Seq<char>, Seq<char>)>,
    from: int,
    e: int,
)
    requires
        0 <= from <= e < entries.len(),
        undeclared_entry(vms, entries, from) == entries.len(),
    ensures
        0 <= last_vm_named(vms, entries[e].0, vms.len() as int) < vms.len(),
    decreases e - from,
{
    if from < e {
        lemma_entry_declared(vms, entries, from + 1, e);
    } else {
        lemma_last_vm_named_bound(vms, entries[e].0, vms.len() as int);
    }
}

/// The place of a machine with a given name lies below the number of
/// machines looked at.
pub proof fn lemma_last_vm_named_bound(vms: Seq<Vm>, name: Seq<char>, upto: int)
    requires
        0 <= upto,
    ensures
        -1 <= last_vm_named(vms, name, upto) < upto || upto == 0,
        last_vm_named(vms, name, upto) >= -1,
    decreases upto,
{
    if upto > 0 && vms[upto - 1].name@ != name {
        lemma_last_vm_named_bound(vms, name, upto - 1);
    }
}

/// The scripts of all phases of a run list, each with the replacements of
/// its machine; a token without a replacement stays and is reported. Fails
/// where the run list names a machine that the system does not have.
pub fn plan_step_scripts(
    vms: &Vec<Vm>,
    machine_maps: &Vec<StringMap>,
    run_steps: &Vec<(StepType, StringMap)>,
) -> (r: Result<Vec<StepScript>, (usize, String)>)
    requires
        machine_maps@.len() == vms@.len(),
        forall|i: int| 0 <= i < machine_maps@.len() ==> (#[trigger] machine_maps@[i]).wf(),
        forall|i: int| 0 <= i < run_steps@.len() ==> (#[trigger] run_steps@[i]).1.wf(),
    ensures
        match r {
            Ok(scripts) => undeclared_step(vms@, run_steps@, 0) == run_steps@.len()
                && script_views(scripts@) == scripts_of_steps(
                vms@,
                machine_maps@,
                run_steps@,
                run_steps@.len() as int,
            ),
            Err((step, name)) => {
                &&& step == undeclared_step(vms@, run_steps@, 0)
                &&& step < run_steps@.len()
                &&& name@ == run_steps@[step as int].1.entries()[undeclared_entry(
                    vms@,
                    run_steps@[step as int].1.entries(),
                    0,
                )].0
            },
        },
{
    match find_undeclared_machine(vms, run_steps) {
        Some(found) => {
            return Err(found);
        },
        None => {},
    }
    let mut out: Vec<StepScript> = Vec::new();
    let mut run_index: usize = 0;
    proof {
        assert(script_views(out@) =~= Seq::<StepScriptView>::empty());
    }
    while run_index < run_steps.len()
        invariant
            run_index <= run_steps@.len(),
            machine_maps@.len() == vms@.len(),
            forall|i: int| 0 <= i < machine_maps@.len() ==> (#[trigger] machine_maps@[i]).wf(),
            forall|i: int| 0 <= i < run_steps@.len() ==> (#[trigger] run_steps@[i]).1.wf(),
            undeclared_step(vms@, run_steps@, 0) == run_steps@.len(),
            script_views(out@) == scripts_of_steps(
                vms@,
                machine_maps@,
                run_steps@,
                run_index as int,
            ),
        decreases run_steps@.len() - run_index,
    {
        let kind = run_steps[run_index].0;
        let steps = &run_steps[run_index].1;
        let ghost entries = steps.entries();
        let ghost before = script_views(out@);
        proof {
            lemma_all_declared(vms@, run_steps@, 0, run_index as int);
            assert(before + Seq::<StepScriptView>::empty() =~= before);
        }
        let mut e: usize = 0;
        while e < steps.len()
            invariant
                e <= entries.len(),
                entries == steps.entries(),
                steps.wf(),
                machine_maps@.len() == vms@.len(),
                forall|i: int| 0 <= i < machine_maps@.len() ==> (#[trigger] machine_maps@[i]).wf(),
                undeclared_entry(vms@, entries, 0) == entries.len(),
                script_views(out@) == before + scripts_of_step(
                    vms@,
                    machine_maps@,
                    kind,
                    run_index as nat,
                    entries,
                    e as int,
                ),
            decreases entries.len() - e,
        {
            let machine_name = steps.key_at(e);
            let script = steps.value_at(e);
            proof {
                lemma_entry_declared(vms@, entries, 0, e as int);
            }
            let place = find_vm(vms, machine_name).unwrap();
            let path = step_file_path(machine_name.as_str(), kind, run_index);
            let replaced = match replace(
                script.as_str(),
                &machine_maps[place],
                ReplaceFailPolicy::Warn,
            ) {
                Ok(r) => r,
                Err(_) => vstd::pervasive::unreached(),
            };
            let ghost so_far = script_views(out@);
            let item = StepScript { path, text: replaced.text, missing: replaced.missing };
            let ghost iv = item@;
            out.push(item);
            proof {
                assert(script_views(out@) =~= so_far.push(iv));
                assert(so_far.push(iv) =~= before + scripts_of_step(
                    vms@,
                    machine_maps@,
                    kind,
                    run_index as nat,
                    entries,
                    e + 1,
                ));
            }
            e = e + 1;
        }
        run_index = run_index + 1;
    }
    Ok(out)
}

/// The records of the replacements of those of the first `upto` machines
/// that have a template.
pub open spec fn replacement_records(vms: Seq<Vm>, maps: Seq<StringMap>, upto: int) -> Seq<char>
    decreases upto,
{
    if upto <= 0 {
        Seq::empty()
    } else if vms[upto - 1].config_template@.len() == 0 {
        replacement_records(vms, maps, upto - 1)
    } else {
        replacement_records(vms, maps, upto - 1) + replacement_record(
            vms[upto - 1].name@,
            maps[upto - 1].entries(),
        )
    }
}

/// What is to be written before the machines fetch their files.
#[derive(Debug)]
pub struct TemplatePlan {
    /// For each machine its replacements: the global ones and its own.
    pub machine_maps: Vec<StringMap>,
    /// The text of the file of replacements: a list with the record of each
    /// machine that has a template.
    pub replacements_file: String,
    /// The scripts of all phases.
    pub step_scripts: Vec<StepScript>,
}

/// Plans the files of a deployment: gives each machine the global
/// replacements and its own, writes the file of replacements, and replaces
/// the tokens in the scripts of the run list. Fails where the run list names
/// a machine that the system does not have.
pub fn prepare_template_configs_for_vms(
    vms: &Vec<Vm>,
    replacement_map: &StringMap,
    vm_specific_repl_map: &Vec<StringMap>,
    run_steps_map: &Vec<(StepType, StringMap)>,
) -> (r: Result<TemplatePlan, (usize, String)>)
    requires
        replacement_map.wf(),
        vm_specific_repl_map@.len() == vms@.len(),
        forall|i: int|
            0 <= i < vm_specific_repl_map@.len() ==> (#[trigger] vm_specific_repl_map@[i]).wf(),
        forall|i: int| 0 <= i < run_steps_map@.len() ==> (#[trigger] run_steps_map@[i]).1.wf(),
    ensures
        match r {
            Ok(plan) => {
                &&& undeclared_step(vms@, run_steps_map@, 0) == run_steps_map@.len()
                &&& plan.machine_maps@.len() == vms@.len()
                &&& forall|i: int|
                    0 <= i < vms@.len() ==> (#[trigger] plan.machine_maps@[i]).wf()
                        && plan.machine_maps@[i]@ == replacement_map@.union_prefer_right(
                        vm_specific_repl_map@[i]@,
                    )
                &&& plan.replacements_file@ == "[\n"@ + replacement_records(
                    vms@,
                    plan.machine_maps@,
                    vms@.len() as int,
                ) + "]"@
                &&& script_views(plan.step_scripts@) == scripts_of_steps(
                    vms@,
                    plan.machine_maps@,
                    run_steps_map@,
                    run_steps_map@.len() as int,
                )
            },
            Err((step, name)) => {
                &&& step == undeclared_step(vms@, run_steps_map@, 0)
                &&& step < run_steps_map@.len()
                &&& name@ == run_steps_map@[step as int].1.entries()[undeclared_entry(
                    vms@,
                    run_steps_map@[step as int].1.entries(),
                    0,
                )].0
            },
        },
{
    let mut machine_maps: Vec<StringMap> = Vec::new();
    let mut vm_idx: usize = 0;
    while vm_idx < vms.len()
        invariant
            vm_idx <= vms@.len(),
            replacement_map.wf(),
            vm_specific_repl_map@.len() == vms@.len(),
            forall|i: int|
                0 <= i < vm_specific_repl_map@.len() ==> (#[trigger] vm_specific_repl_map@[i]).wf(),
            machine_maps@.len() == vm_idx,
            forall|i: int|
                0 <= i < vm_idx ==> (#[trigger] machine_maps@[i]).wf() && machine_maps@[i]@
                    == replacement_map@.union_prefer_right(vm_specific_repl_map@[i]@),
        decreases vms@.len() - vm_idx,
    {
        machine_maps.push(merged_replacements(replacement_map, &vm_specific_repl_map[vm_idx]));
        vm_idx = vm_idx + 1;
    }
    let mut replacement_yml = String::new();
    replacement_yml.append("[\n");
    let mut k: usize = 0;
    proof {
        assert("[\n"@ + Seq::<char>::empty() =~= "[\n"@);
    }
    while k < vms.len()
        invariant
            k <= vms@.len(),
            machine_maps@.len() == vms@.len(),
            forall|i: int| 0 <= i < vms@.len() ==> (#[trigger] machine_maps@[i]).wf(),
            replacement_yml@ == "[\n"@ + replacement_records(vms@, machine_maps@, k as int),
        decreases vms@.len() - k,
    {
        let vm = &vms[k];
        if !vm.config_template.as_str().is_empty() {
            let record = generate_replacement_yml(vm.name.as_str(), &machine_maps[k]);
            replacement_yml.append(record.as_str());
            proof {
                assert(replacement_yml@ =~= "[\n"@ + replacement_records(
                    vms@,
                    machine_maps@,
                    k + 1,
                ));
            }
        }
        k = k + 1;
    }
    replacement_yml.append("]");
    match plan_step_scripts(vms, &machine_maps, run_steps_map) {
        Ok(step_scripts) => Ok(
            TemplatePlan { machine_maps, replacements_file: replacement_yml, step_scripts },
        ),
        Err(e) => Err(e),
    }
}

/// The replacements that every template gets: the tokens `ORCHESTRATOR_IP`
/// and `WEBSERVER_IP` give the public address of the webserver, and the name
/// of each machine with a public address gives that address.
pub fn template_replacements(orchestrator_ip: &str, pip_map: &StringMap) -> (r: StringMap)
    requires
        pip_map.wf(),
    ensures
        r.wf(),
        r@ == Map::<Seq<char>, Seq<char>>::empty().insert(
            "ORCHESTRATOR_IP"@,
            orchestrator_ip@,
        ).insert("WEBSERVER_IP"@, orchestrator_ip@).union_prefer_right(pip_map@),
{
    let mut replacement_map = StringMap::new();
    replacement_map.insert(String::from_str("ORCHESTRATOR_IP"), String::from_str(orchestrator_ip));
    replacement_map.insert(String::from_str("WEBSERVER_IP"), String::from_str(orchestrator_ip));
    replacement_map.extend(pip_map);
    replacement_map
}

/// The directories of the reports of the machines, separated by spaces.
pub open spec fn report_dirs(names: Seq<Seq<char>>, upto: int) -> Seq<char>
    decreases upto,
{
    if upto <= 0 {
        "machine_reports/"@
    } else if upto == 1 {
        "machine_reports/"@ + names[0]
    } else {
        report_dirs(names, upto - 1) + " machine_reports/"@ + names[upto - 1]
    }
}

/// The directories on the webserver that take the reports of the machines:
/// `machine_reports/` followed by a machine's name, for each machine,
/// separated by spaces.
pub fn machine_report_dirs(machine_names: &Vec<String>) -> (r: String)
    ensures
        r@ == report_dirs(views(machine_names@), machine_names@.len() as int),
{
    let mut dirs = String::from_str("machine_reports/");
    let mut k: usize = 0;
    while k < machine_names.len()
        invariant
            k <= machine_names@.len(),
            dirs@ == report_dirs(views(machine_names@), k as int),
        decreases machine_names@.len() - k,
    {
        if k > 0 {
            dirs.append(" machine_reports/");
        }
        dirs.append(machine_names[k].as_str());
        proof {
            assert(views(machine_names@)[k as int] == machine_names@[k as int]@);
            if k == 0 {
                assert(views(machine_names@)[0] == machine_names@[0]@);
            }
        }
        k = k + 1;
    }
    dirs
}

/// Where a deployment stands.
#[derive(Clone, Copy, Debug, PartialEq, Eq, Structural)]
pub enum DriverState {
    /// Nothing was started yet.
    Start,
    /// The webserver and the machines are being created.
    Creating,
    /// The webserver is being set up; so many attempts were made before.
    Webserver(usize),
    /// The files are being made and sent, and the machines fetch them.
    Distributing,
    /// The phase at this place of the run list is running.
    Running(usize),
    /// The script that follows the deployment is running.
    PostDeployment,
    /// The deployment has ended.
    Finished,
}

/// What came back from the work that was asked for last.
#[derive(Clone, Copy, Debug, PartialEq, Eq, Structural)]
pub enum DriverEvent {
    /// The work succeeded.
    Succeeded,
    /// The work failed.
    Failed,
    /// The script that follows the deployment ended with this exit code.
    Exited(isize),
}

/// What is to be done next.
#[derive(Clone, Copy, Debug, PartialEq, Eq, Structural)]
pub enum DriverAction {
    /// Create the webserver and the machines, side by side, and wait for
    /// both.
    CreateSystems,
    /// Set the webserver up and check that it runs.
    SetUpWebserver,
    /// Make the files of the machines, send them to the webserver, and let
    /// every machine fetch its own.
    DistributeAssets,
    /// Start the scripts of the phase at this place on all its machines, and
    /// wait for all of them.
    RunStep(usize),
    /// Run the script that follows the deployment.
    RunPostDeployment,
    /// Leave with this exit code.
    Exit(isize),
    /// Give up: the deployment has failed.
    Abort,
}

/// What follows the phase at place `done - 1`, or the distribution of the
/// files where `done` is zero: the next phase; behind the last one the script
/// that follows the deployment, where there is one; else the end.
pub open spec fn after_steps(done: usize, step_count: usize, has_post_script: bool) -> (
    DriverState,
    DriverAction,
) {
    if done < step_count {
        (DriverState::Running(done), DriverAction::RunStep(done))
    } else if has_post_script {
        (DriverState::PostDeployment, DriverAction::RunPostDeployment)
    } else {
        (DriverState::Finished, DriverAction::Exit(0))
    }
}

/// The next state of a deployment and what is to be done, for the state it
/// is in and what came back. The systems are created first; then the
/// webserver is set up, up to four times; then the files are distributed;
/// then the phases of the run list run one after the other, each only when
/// the one before has ended; at last the script that follows the deployment
/// runs, and its exit code is that of the deployment. A failure anywhere else
/// ends the deployment.
pub open spec fn driver_step(
    state: DriverState,
    event: DriverEvent,
    step_count: usize,
    has_post_script: bool,
) -> (DriverState, DriverAction) {
    match state {
        DriverState::Start => (DriverState::Creating, DriverAction::CreateSystems),
        DriverState::Creating => match event {
            DriverEvent::Succeeded => (DriverState::Webserver(0), DriverAction::SetUpWebserver),
            _ => (DriverState::Finished, DriverAction::Abort),
        },
        DriverState::Webserver(attempts) => match event {
            DriverEvent::Succeeded => (DriverState::Distributing, DriverAction::DistributeAssets),
            _ => if attempts + 1 < WEBSERVER_ATTEMPTS {
                (DriverState::Webserver((attempts + 1) as usize), DriverAction::SetUpWebserver)
            } else {
                (DriverState::Finished, DriverAction::Abort)
            },
        },
        DriverState::Distributing => match event {
            DriverEvent::Succeeded => after_steps(0, step_count, has_post_script),
            _ => (DriverState::Finished, DriverAction::Abort),
        },
        DriverState::Running(index) => match event {
            DriverEvent::Succeeded => if index < step_count {
                after_steps((index + 1) as usize, step_count, has_post_script)
            } else {
                (DriverState::Finished, DriverAction::Abort)
            },
            _ => (DriverState::Finished, DriverAction::Abort),
        },
        DriverState::PostDeployment => match event {
            DriverEvent::Exited(code) => (DriverState::Finished, DriverAction::Exit(code)),
            DriverEvent::Succeeded => (DriverState::Finished, DriverAction::Exit(0)),
            DriverEvent::Failed => (DriverState::Finished, DriverAction::Abort),
        },
        DriverState::Finished => (DriverState::Finished, DriverAction::Abort),
    }
}

/// Decides what a deployment does next.
pub fn run_v2(state: DriverState, event: DriverEvent, step_count: usize, has_post_script: bool) -> (r:
    (DriverState, DriverAction))
    ensures
        r == driver_step(state, event, step_count, has_post_script),
{
    match state {
        DriverState::Start => (DriverState::Creating, DriverAction::CreateSystems),
        DriverState::Creating => match event {
            DriverEvent::Succeeded => (DriverState::Webserver(0), DriverAction::SetUpWebserver),
            _ => (DriverState::Finished, DriverAction::Abort),
        },
        DriverState::Webserver(attempts) => match event {
            DriverEvent::Succeeded => (DriverState::Distributing, DriverAction::DistributeAssets),
            _ => if attempts < WEBSERVER_ATTEMPTS - 1 {
                (DriverState::Webserver(attempts + 1), DriverAction::SetUpWebserver)
            } else {
                (DriverState::Finished, DriverAction::Abort)
            },
        },
        DriverState::Distributing => match event {
            DriverEvent::Succeeded => next_after_steps(0, step_count, has_post_script),
            _ => (DriverState::Finished, DriverAction::Abort),
        },
        DriverState::Running(index) => match event {
            DriverEvent::Succeeded => if index < step_count {
                next_after_steps(index + 1, step_count, has_post_script)
            } else {
                (DriverState::Finished, DriverAction::Abort)
            },
            _ => (DriverState::Finished, DriverAction::Abort),
        },
        DriverState::PostDeployment => match event {
            DriverEvent::Exited(code) => (DriverState::Finished, DriverAction::Exit(code)),
            DriverEvent::Succeeded => (DriverState::Finished, DriverAction::Exit(0)),
            DriverEvent::Failed => (DriverState::Finished, DriverAction::Abort),
        },
        DriverState::Finished => (DriverState::Finished, DriverAction::Abort),
    }
}

/// What follows the phases that are done.
fn next_after_steps(done: usize, step_count: usize, has_post_script: bool) -> (r: (
    DriverState,
    DriverAction,
))
    ensures
        r == after_steps(done, step_count, has_post_script),
{
    if done < step_count {
        (DriverState::Running(done), DriverAction::RunStep(done))
    } else if has_post_script {
        (DriverState::PostDeployment, DriverAction::RunPostDeployment)
    } else {
        (DriverState::Finished, DriverAction::Exit(0))
    }
}

/// Whatever comes back, a phase is started only when the phase before it has
/// succeeded, and the first phase only when the files are distributed.
pub proof fn lemma_steps_in_order(
    state: DriverState,
    event: DriverEvent,
    step_count: usize,
    has_post_script: bool,
    index: usize,
)
    requires
        driver_step(state, event, step_count, has_post_script).1 == DriverAction::RunStep(index),
    ensures
        event == DriverEvent::Succeeded,
        index < step_count,
        index == 0 ==> state == DriverState::Distributing,
        index > 0 ==> state == DriverState::Running((index - 1) as usize),
{
}

/// The webserver is set up four times at most: a failed attempt is followed
/// by another one only where fewer than three attempts were made before it.
pub proof fn lemma_webserver_attempts(
    attempts: usize,
    event: DriverEvent,
    step_count: usize,
    has_post_script: bool,
)
    ensures
        driver_step(DriverState::Webserver(attempts), event, step_count, has_post_script).1
            == DriverAction::SetUpWebserver <==> (event != DriverEvent::Succeeded && attempts
            < 3),
{
}

/// The record of one machine in the summary of a deployment.
pub open spec fn summary_record(
    name: Seq<char>,
    username: Seq<char>,
    password: Seq<char>,
    hostname: Seq<char>,
) -> Seq<char> {
    "  {\n      name: "@ + name + ",\n      username: "@ + username + ",\n      password: "@
        + password + ",\n      hostname: "@ + hostname + ",\n  },\n"@
}

/// The records of the first `upto` machines.
pub open spec fn summary_records(summaries: Seq<VmSummary>, upto: int) -> Seq<char>
    decreases upto,
{
    if upto <= 0 {
        Seq::empty()
    } else {
        summary_records(summaries, upto - 1) + summary_record(
            summaries[upto - 1].name@,
            summaries[upto - 1].username@,
            summaries[upto - 1].password@,
            summaries[upto - 1].hostname@,
        )
    }
}

/// Writes the summary of a deployment: a list with the record of each
/// machine that can be reached from outside.
pub fn deployment_summary(summaries: &Vec<VmSummary>) -> (r: String)
    ensures
        r@ == "[\n"@ + summary_records(summaries@, summaries@.len() as int) + "]"@,
{
    let mut info = String::from_str("[\n");
    let mut k: usize = 0;
    proof {
        assert("[\n"@ + Seq::<char>::empty() =~= "[\n"@);
    }
    while k < summaries.len()
        invariant
            k <= summaries@.len(),
            info@ == "[\n"@ + summary_records(summaries@, k as int),
        decreases summaries@.len() - k,
    {
        let vm = &summaries[k];
        info.append("  {\n      name: ");
        info.append(vm.name.as_str());
        info.append(",\n      username: ");
        info.append(vm.username.as_str());
        info.append(",\n      password: ");
        info.append(vm.password.as_str());
        info.append(",\n      hostname: ");
        info.append(vm.hostname.as_str());
        info.append(",\n  },\n");
        proof {
            assert(info@ =~= "[\n"@ + summary_records(summaries@, k + 1));
        }
        k = k + 1;
    }
    info.append("]");
    info
}

/// The summary of a machine that can be reached under `hostname`.
pub fn summary_of(vm: &Vm, hostname: &str) -> (r: VmSummary)
    ensures
        r.name@ == vm.name@,
        r.username@ == vm.auth.user@,
        r.password@ == vm.auth.password@,
        r.hostname@ == hostname@,
{
    VmSummary {
        name: vm.name.clone(),
        hostname: String::from_str(hostname),
        username: vm.auth.user.clone(),
        password: vm.auth.password.clone(),
    }
}

/// The replacements that every template gets, as a map.
pub open spec fn template_map(orchestrator_ip: Seq<char>, hosts: Map<Seq<char>, Seq<char>>) -> Map<
    Seq<char>,
    Seq<char>,
> {
    Map::<Seq<char>, Seq<char>>::empty().insert("ORCHESTRATOR_IP"@, orchestrator_ip).insert(
        "WEBSERVER_IP"@,
        orchestrator_ip,
    ).union_prefer_right(hosts)
}

/// The replacements of a machine: those that every template gets; before
/// them in rank the machine's role tokens, for the neighbours that were
/// picked; and before those the tokens that the machine has for itself.
pub open spec fn machine_map(
    orchestrator_ip: Seq<char>,
    hosts: Map<Seq<char>, Seq<char>>,
    picked: Seq<RolePair>,
    vm: Vm,
) -> Map<Seq<char>, Seq<char>> {
    template_map(orchestrator_ip, hosts).union_prefer_right(
        with_vm_tokens(
            role_tokens(picked, picked.len() as int),
            vm.name@,
            vm.auth.user@,
            vm.auth.password@,
        ),
    )
}

/// Why the files of a deployment could not be planned.
#[derive(Debug)]
pub enum PrepareError {
    /// The addresses of two connected machines could not be found.
    Roles(RolesError),
    /// The phase at this place of the run list names this machine, which the
    /// system does not have.
    UndeclaredMachine(usize, String),
}

/// Plans the files of a deployment from its representations: the
/// replacements of every machine are the address of the webserver, the public
/// addresses of the machines, the addresses behind its role tokens, and its
/// own name, user and password. Fails where two connected machines share no
/// subnet or more than one, and where the run list names a machine that the
/// system does not have.
pub fn prepare_from_templates(
    lasir_system: &LogicalSystem,
    pasir_vms: &Vec<Vm>,
    pasir_network: &Vec<Subnet>,
    hostname_map: &StringMap,
    orchestrator_ip: &str,
    run_steps_map: &Vec<(StepType, StringMap)>,
) -> (r: Result<TemplatePlan, PrepareError>)
    requires
        lasir_system.wf(),
        pasir_vms@.len() == lasir_system.vms@.len(),
        forall|s: int| 0 <= s < pasir_network@.len() ==> (#[trigger] pasir_network@[s]).wf(),
        hostname_map.wf(),
        forall|i: int| 0 <= i < run_steps_map@.len() ==> (#[trigger] run_steps_map@[i]).1.wf(),
    ensures
        match mapping_upto(*lasir_system, pasir_network@, lasir_system.vms@.len() as int) {
            Err(e) => r is Err && r->Err_0 == PrepareError::Roles(e),
            Ok(_) => match r {
                Ok(plan) => {
                    &&& undeclared_step(pasir_vms@, run_steps_map@, 0) == run_steps_map@.len()
                    &&& plan.machine_maps@.len() == pasir_vms@.len()
                    &&& forall|i: int|
                        0 <= i < pasir_vms@.len() ==> (#[trigger] plan.machine_maps@[i]).wf()
                            && has_vm_tokens(plan.machine_maps@[i]@, pasir_vms@[i])
                    &&& exists|complete: Seq<Vec<RolePairs>>, picks: Seq<Vec<RolePair>>|
                        {
                            &&& Ok::<_, RolesError>(complete_view(complete)) == mapping_upto(
                                *lasir_system,
                                pasir_network@,
                                lasir_system.vms@.len() as int,
                            )
                            &&& #[trigger] picks_match(picks, complete)
                            &&& forall|i: int|
                                0 <= i < pasir_vms@.len() ==> (#[trigger] plan.machine_maps@[i])@
                                    == machine_map(
                                    orchestrator_ip@,
                                    hostname_map@,
                                    picks[i]@,
                                    pasir_vms@[i],
                                )
                        }
                    &&& plan.replacements_file@ == "[\n"@ + replacement_records(
                        pasir_vms@,
                        plan.machine_maps@,
                        pasir_vms@.len() as int,
                    ) + "]"@
                    &&& script_views(plan.step_scripts@) == scripts_of_steps(
                        pasir_vms@,
                        plan.machine_maps@,
                        run_steps_map@,
                        run_steps_map@.len() as int,
                    )
                },
                Err(PrepareError::UndeclaredMachine(step, name)) => {
                    &&& step == undeclared_step(pasir_vms@, run_steps_map@, 0)
                    &&& step < run_steps_map@.len()
                    &&& name@ == run_steps_map@[step as int].1.entries()[undeclared_entry(
                        pasir_vms@,
                        run_steps_map@[step as int].1.entries(),
                        0,
                    )].0
                },
                Err(PrepareError::Roles(_)) => false,
            },
        },
{
    let (complete, picks) = match create_vm_local_ip_mapping(lasir_system, pasir_network) {
        Ok(maps) => maps,
        Err(e) => {
            return Err(PrepareError::Roles(e));
        },
    };
    let mut vm_specific_repl_map = create_ip_string_replacement_map(&picks);
    proof {
        crate::utils::roles::lemma_mapping_len(
            *lasir_system,
            pasir_network@,
            lasir_system.vms@.len() as int,
        );
    }
    let n = vm_specific_repl_map.len();
    let mut with_own: Vec<StringMap> = Vec::new();
    // the maps from the last to the first, so that each can be taken off the end
    while vm_specific_repl_map.len() > 0
        invariant
            vm_specific_repl_map@.len() + with_own@.len() == n,
            n == pasir_vms@.len(),
            forall|i: int|
                0 <= i < vm_specific_repl_map@.len() ==> (#[trigger] vm_specific_repl_map@[i]).wf(),
            forall|i: int|
                0 <= i < vm_specific_repl_map@.len() ==> (#[trigger] vm_specific_repl_map@[i])@
                    == role_tokens(picks@[i]@, picks@[i]@.len() as int),
            forall|i: int|
                0 <= i < with_own@.len() ==> (#[trigger] with_own@[i]).wf() && own_map(
                    with_own@[i]@,
                    picks@[n - 1 - i]@,
                    pasir_vms@[n - 1 - i],
                ),
        decreases vm_specific_repl_map@.len(),
    {
        let mut map = vm_specific_repl_map.pop().unwrap();
        let place = vm_specific_repl_map.len();
        add_vm_tokens(&mut map, &pasir_vms[place]);
        with_own.push(map);
    }
    let mut ordered: Vec<StringMap> = Vec::new();
    while with_own.len() > 0
        invariant
            with_own@.len() + ordered@.len() == n,
            n == pasir_vms@.len(),
            forall|i: int|
                0 <= i < with_own@.len() ==> (#[trigger] with_own@[i]).wf() && own_map(
                    with_own@[i]@,
                    picks@[n - 1 - i]@,
                    pasir_vms@[n - 1 - i],
                ),
            forall|i: int|
                0 <= i < ordered@.len() ==> (#[trigger] ordered@[i]).wf() && own_map(
                    ordered@[i]@,
                    picks@[i]@,
                    pasir_vms@[i],
                ),
        decreases with_own@.len(),
    {
        let map = with_own.pop().unwrap();
        ordered.push(map);
    }
    let replacement_map = template_replacements(orchestrator_ip, hostname_map);
    match prepare_template_configs_for_vms(pasir_vms, &replacement_map, &ordered, run_steps_map) {
        Ok(plan) => {
            proof {
                assert forall|i: int| 0 <= i < pasir_vms@.len() implies has_vm_tokens(
                    (#[trigger] plan.machine_maps@[i])@,
                    pasir_vms@[i],
                ) && plan.machine_maps@[i]@ == machine_map(
                    orchestrator_ip@,
                    hostname_map@,
                    picks@[i]@,
                    pasir_vms@[i],
                ) by {
                    assert(own_map(ordered@[i]@, picks@[i]@, pasir_vms@[i]));
                }
                assert(picks_match(picks@, complete@));
            }
            Ok(plan)
        },
        Err((step, name)) => Err(PrepareError::UndeclaredMachine(step, name)),
    }
}

/// Whether `map` holds the role tokens of the neighbours that were picked
/// for a machine, and before them in rank the tokens that the machine has
/// for itself.
pub open spec fn own_map(map: Map<Seq<char>, Seq<char>>, picked: Seq<RolePair>, vm: Vm) -> bool {
    map == with_vm_tokens(
        role_tokens(picked, picked.len() as int),
        vm.name@,
        vm.auth.user@,
        vm.auth.password@,
    )
}

/// Whether a map holds the replacements that a machine has for itself.
pub open spec fn has_vm_tokens(map: Map<Seq<char>, Seq<char>>, vm: Vm) -> bool {
    with_vm_tokens(Map::empty(), vm.name@, vm.auth.user@, vm.auth.password@).submap_of(map)
}

/// One command of the set-up of the webserver.
#[derive(Debug)]
pub struct ShellStep {
    /// The command.
    pub command: String,
    /// How often the command is tried until it succeeds.
    pub tries: usize,
    /// Whether a second passes between two tries.
    pub wait: bool,
    /// Whether the set-up gives up when the command has failed at every try.
    pub must_succeed: bool,
}

/// A command of the set-up as plain values.
pub struct ShellStepView {
    pub command: Seq<char>,
    pub tries: usize,
    pub wait: bool,
    pub must_succeed: bool,
}

impl View for ShellStep {
    type V = ShellStepView;

    open spec fn view(&self) -> ShellStepView {
        ShellStepView {
            command: self.command@,
            tries: self.tries,
            wait: self.wait,
            must_succeed: self.must_succeed,
        }
    }
}

/// The commands as plain values.
pub open spec fn shell_step_views(v: Seq<ShellStep>) -> Seq<ShellStepView> {
    Seq::new(v.len(), |i: int| v[i]@)
}

/// A command that is tried up to eight times, with a second between the
/// tries, and whose failure is passed over.
pub open spec fn patient(command: Seq<char>) -> ShellStepView {
    ShellStepView { command, tries: SHELL_ATTEMPTS, wait: true, must_succeed: false }
}

/// The commands that set the webserver up, once its program lies in
/// `test-deployment/ws`: the common data are packed, sent and unpacked, where
/// there are any; the program, its set-up script and its service are sent;
/// the directories for the reports of the machines are made; and the set-up
/// script is run as the superuser.
pub open spec fn webserver_plan(
    ip: Seq<char>,
    names: Seq<Seq<char>>,
    args: Seq<char>,
    has_common_data: bool,
) -> Seq<ShellStepView> {
    let on = |remote: Seq<char>| ssh_text(args, ORCH_USER@, ip, remote);
    let to = |source: Seq<char>, target: Seq<char>|
        scp_text(""@, args, source, ORCH_USER@, ip, target);
    (if has_common_data {
        seq![
            ShellStepView {
                command: "cd temp_common_data; tar czf common_data.tgz ./*"@,
                tries: 1,
                wait: false,
                must_succeed: true,
            },
            ShellStepView {
                command: on("mkdir -p common_data"@),
                tries: SHELL_ATTEMPTS,
                wait: false,
                must_succeed: true,
            },
            patient(to("temp_common_data/common_data.tgz"@, "~/common_data/"@)),
            ShellStepView {
                command: on("cd common_data; tar xzf common_data.tgz"@),
                tries: SHELL_ATTEMPTS,
                wait: false,
                must_succeed: false,
            },
        ]
    } else {
        Seq::empty()
    }) + seq![
        patient(to("test-deployment/ws"@, "~/ws"@)),
        ShellStepView {
            command: "rm test-deployment/ws"@,
            tries: 1,
            wait: false,
            must_succeed: false,
        },
        patient(to("webserver/webserver_setup.sh"@, "~/webserver_setup.sh"@)),
        patient(to("webserver/orche.service"@, "~/orche.service"@)),
        patient(on("mkdir -p machine_reports"@)),
        patient(on("mkdir -p "@ + report_dirs(names, names.len() as int))),
        patient(on("echo "@ + ORCH_PASS@ + " | sudo -S sh ~/webserver_setup.sh"@)),
    ]
}

/// A command that is tried up to eight times, with a second between the
/// tries, and whose failure is passed over.
fn patient_step(command: String) -> (r: ShellStep)
    ensures
        r@ == patient(command@),
{
    ShellStep { command, tries: SHELL_ATTEMPTS, wait: true, must_succeed: false }
}

/// Lists the commands that set the webserver up.
pub fn setup_webserv(ip: &str, machine_names: &Vec<String>, custom_args: &str, has_common_data: bool) -> (r:
    Vec<ShellStep>)
    ensures
        shell_step_views(r@) == webserver_plan(
            ip@,
            views(machine_names@),
            custom_args@,
            has_common_data,
        ),
{
    let mut steps: Vec<ShellStep> = Vec::new();
    if has_common_data {
        steps.push(
            ShellStep {
                command: String::from_str("cd temp_common_data; tar czf common_data.tgz ./*"),
                tries: 1,
                wait: false,
                must_succeed: true,
            },
        );
        steps.push(
            ShellStep {
                command: ssh_command(custom_args, ORCH_USER, ip, "mkdir -p common_data"),
                tries: SHELL_ATTEMPTS,
                wait: false,
                must_succeed: true,
            },
        );
        steps.push(
            patient_step(
                scp_command(
                    "",
                    custom_args,
                    "temp_common_data/common_data.tgz",
                    ORCH_USER,
                    ip,
                    "~/common_data/",
                ),
            ),
        );
        steps.push(
            ShellStep {
                command: ssh_command(
                    custom_args,
                    ORCH_USER,
                    ip,
                    "cd common_data; tar xzf common_data.tgz",
                ),
                tries: SHELL_ATTEMPTS,
                wait: false,
                must_succeed: false,
            },
        );
    }
    steps.push(
        patient_step(scp_command("", custom_args, "test-deployment/ws", ORCH_USER, ip, "~/ws")),
    );
    steps.push(
        ShellStep {
            command: String::from_str("rm test-deployment/ws"),
            tries: 1,
            wait: false,
            must_succeed: false,
        },
    );
    steps.push(
        patient_step(
            scp_command(
                "",
                custom_args,
                "webserver/webserver_setup.sh",
                ORCH_USER,
                ip,
                "~/webserver_setup.sh",
            ),
        ),
    );
    steps.push(
        patient_step(
            scp_command("", custom_args, "webserver/orche.service", ORCH_USER, ip, "~/orche.service"),
        ),
    );
    steps.push(patient_step(ssh_command(custom_args, ORCH_USER, ip, "mkdir -p machine_reports")));
    let mut make_dirs = String::from_str("mkdir -p ");
    make_dirs.append(machine_report_dirs(machine_names).as_str());
    steps.push(patient_step(ssh_command(custom_args, ORCH_USER, ip, make_dirs.as_str())));
    let mut set_up = String::from_str("echo ");
    set_up.append(ORCH_PASS);
    set_up.append(" | sudo -S sh ~/webserver_setup.sh");
    steps.push(patient_step(ssh_command(custom_args, ORCH_USER, ip, set_up.as_str())));
    proof {
        assert(shell_step_views(steps@) =~= webserver_plan(
            ip@,
            views(machine_names@),
            custom_args@,
            has_common_data,
        ));
    }
    steps
}

/// The two commands that tell whether the webserver runs: one asks for the
/// state of its service, the other lists the directory of the reports. The
/// set-up has succeeded when both succeed.
pub fn prepare_ws(ip: &str, custom_args: &str) -> (r: (String, String))
    ensures
        r.0@ == ssh_text(
            custom_args@,
            ORCH_USER@,
            ip@,
            "echo "@ + ORCH_PASS@ + " | sudo -S systemctl status orche"@,
        ),
        r.1@ == ssh_text(
            custom_args@,
            ORCH_USER@,
            ip@,
            "echo "@ + ORCH_PASS@ + " | sudo -S ls /home/orch/machine_reports"@,
        ),
{
    let mut status = String::from_str("echo ");
    status.append(ORCH_PASS);
    status.append(" | sudo -S systemctl status orche");
    let mut list = String::from_str("echo ");
    list.append(ORCH_PASS);
    list.append(" | sudo -S ls /home/orch/machine_reports");
    (
        ssh_command(custom_args, ORCH_USER, ip, status.as_str()),
        ssh_command(custom_args, ORCH_USER, ip, list.as_str()),
    )
}

/// The names of the first `upto` lists, each once, in the order in which they
/// first occur.
pub open spec fn distinct_names(lists: Seq<Seq<Seq<char>>>, upto: int) -> Seq<Seq<char>>
    decreases upto,
{
    if upto <= 0 {
        Seq::empty()
    } else {
        distinct_in(
            distinct_names(lists, upto - 1),
            lists[upto - 1],
            lists[upto - 1].len() as int,
        )
    }
}

/// `acc`, then those of the first `upto` of `names` that are new, each once.
pub open spec fn distinct_in(acc: Seq<Seq<char>>, names: Seq<Seq<char>>, upto: int) -> Seq<
    Seq<char>,
>
    decreases upto,
{
    if upto <= 0 {
        acc
    } else {
        let before = distinct_in(acc, names, upto - 1);
        if before.contains(names[upto - 1]) {
            before
        } else {
            before.push(names[upto - 1])
        }
    }
}

/// The lists of names as plain values.
pub open spec fn name_lists(lists: Seq<Vec<String>>) -> Seq<Seq<Seq<char>>> {
    Seq::new(lists.len(), |i: int| views(lists[i]@))
}

/// The files of the common data that the machines ask for, each once, in
/// the order in which they are first asked for.
pub fn prepare_common_data(common_data: &Vec<Vec<String>>) -> (r: Vec<String>)
    ensures
        views(r@) == distinct_names(name_lists(common_data@), common_data@.len() as int),
{
    let mut res: Vec<String> = Vec::new();
    let ghost lists = name_lists(common_data@);
    let mut i: usize = 0;
    proof {
        assert(views(res@) =~= Seq::<Seq<char>>::empty());
    }
    while i < common_data.len()
        invariant
            i <= common_data@.len(),
            lists == name_lists(common_data@),
            views(res@) == distinct_names(lists, i as int),
        decreases common_data@.len() - i,
    {
        let names = &common_data[i];
        let ghost start = views(res@);
        let mut k: usize = 0;
        while k < names.len()
            invariant
                k <= names@.len(),
                i < common_data@.len(),
                *names == common_data@[i as int],
                lists == name_lists(common_data@),
                views(res@) == distinct_in(start, lists[i as int], k as int),
            decreases names@.len() - k,
        {
            proof {
                assert(lists[i as int][k as int] == names@[k as int]@);
            }
            if !crate::utils::replace::holds_string(&res, &names[k]) {
                let ghost before = views(res@);
                res.push(names[k].clone());
                proof {
                    assert(views(res@) =~= before.push(names@[k as int]@));
                }
            }
            k = k + 1;
        }
        i = i + 1;
    }
    res
}

/// The physical representation of a system: its machines, carried over one
/// by one, and its subnets with their addresses. The subnets are those that
/// are inferred from the graph of the system, and get their addresses in the
/// order in which they were inferred. Every subnet names machines of the
/// system only, and each once. Succeeds exactly where the subnets fit into
/// 10.0.0.0/8.
pub fn lasir_to_pasir(lasir_system: &LogicalSystem) -> (r: Result<
    (Vec<Vm>, Vec<Subnet>),
    AllocationError,
>)
    requires
        lasir_system.wf(),
    ensures
        ({
            let lists = cover_upto(lasir_system.network, lasir_system.network.count() as int);
            let sizes = list_sizes(lists);
            &&& r is Ok <==> cursor_after(sizes, sizes.len() as int) <= ADDRESS_LIMIT
            &&& r is Err ==> r->Err_0 == AllocationError::AddressSpaceExhausted
            &&& r is Ok ==> {
                &&& r->Ok_0.0@.len() == lasir_system.vms@.len()
                &&& forall|i: int|
                    0 <= i < lasir_system.vms@.len() ==> same_machine(
                        lasir_system.vms@[i],
                        #[trigger] r->Ok_0.0@[i],
                    )
                &&& r->Ok_0.1@.len() == lists.len()
                &&& forall|i: int|
                    0 <= i < lists.len() ==> (#[trigger] r->Ok_0.1@[i]).is_allocation_of(
                        lists[i],
                        subnet_start(sizes, i),
                    )
                &&& network_fits(lasir_system.vms@.len(), r->Ok_0.1@)
            }
        }),
{
    let pasir_network = match lasir_network_to_pasir_network(&lasir_system.network) {
        Ok(n) => n,
        Err(e) => {
            return Err(e);
        },
    };
    let pasir_vms = lasir_vms_to_pasir_vms(&lasir_system.vms);
    proof {
        let g = lasir_system.network;
        let lists = cover_upto(g, g.count() as int);
        assert forall|s: int| 0 <= s < pasir_network@.len() implies {
            &&& (#[trigger] pasir_network@[s]).wf()
            &&& forall|j: int|
                0 <= j < pasir_network@[s].connected_vms@.len() ==> (
                #[trigger] pasir_network@[s].connected_vms@[j]).0 < lasir_system.vms@.len()
        } by {
            let sn = pasir_network@[s];
            assert forall|j: int| 0 <= j < sn.connected_vms@.len() implies (
            #[trigger] sn.connected_vms@[j]).0 < lasir_system.vms@.len() by {
                assert(sn.connected_vms@[j].0 == lists[s][j]);
                assert(lists[s].contains(lists[s][j]));
            }
        }
    }
    Ok((pasir_vms, pasir_network))
}

} // verus!
