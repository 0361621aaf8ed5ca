//! The shell commands that create a deployment.

use vstd::prelude::*;
use vstd::string::StringExecFns;
use crate::azuresir::system::{nic_views, NicView, Vm, WholeSystem};
use crate::utils::text::{decimal, lowered, push_decimal, to_ascii_lowercase, trim, trimmed};
use crate::utils::types::dotted;

verus! {

/// The commands that create a deployment: one text for the network, and one
/// for each machine.
#[derive(Debug)]
pub struct EmitterSystem {
    pub network: String,
    pub vms: Vec<String>,
}

/// The arguments of a command as plain values: whether the flag is long, the
/// flag, and its value.
pub open spec fn args_view(args: Seq<(bool, &str, &str)>) -> Seq<(bool, Seq<char>, Seq<char>)> {
    Seq::new(args.len(), |i: int| (args[i].0, args[i].1@, args[i].2@))
}

/// The line of one argument: nothing for an argument without flag and
/// value; else the end of the line before, then a tab, two dashes for a long
/// flag and one for a short one, the flag and the value without the white
/// space around them, each followed by a space.
pub open spec fn arg_line(a: (bool, Seq<char>, Seq<char>)) -> Seq<char> {
    if a.1.len() == 0 && a.2.len() == 0 {
        Seq::empty()
    } else {
        "\\\n"@ + (if a.0 {
            "\t--"@
        } else {
            "\t-"@
        }) + trimmed(a.1) + " "@ + trimmed(a.2) + " "@
    }
}

/// The lines of the arguments, in order.
pub open spec fn arg_lines(args: Seq<(bool, Seq<char>, Seq<char>)>) -> Seq<char>
    decreases args.len(),
{
    if args.len() == 0 {
        Seq::empty()
    } else {
        arg_lines(args.drop_last()) + arg_line(args.last())
    }
}

/// The text of a command: its name and a space, the lines of its arguments,
/// and a line feed. Each line but the last ends in a backslash.
pub open spec fn shell_command(name: Seq<char>, args: Seq<(bool, Seq<char>, Seq<char>)>) -> Seq<
    char,
> {
    name + " "@ + arg_lines(args) + "\n"@
}

/// Writes a command with its arguments, one argument on each line. An
/// argument is given as: whether its flag is long, the flag, and its value.
pub fn generate_shell_command(name: &str, args: Vec<(bool, &str, &str)>) -> (r: String)
    ensures
        r@ == shell_command(name@, args_view(args@)),
{
    let mut ret = String::from_str(name);
    ret.append(" ");
    let ghost all = args_view(args@);
    let mut k: usize = 0;
    proof {
        assert(all.subrange(0, 0) =~= Seq::<(bool, Seq<char>, Seq<char>)>::empty());
        assert(name@ + " "@ + Seq::<char>::empty() =~= name@ + " "@);
    }
    while k < args.len()
        invariant
            k <= args@.len(),
            all == args_view(args@),
            ret@ == name@ + " "@ + arg_lines(all.subrange(0, k as int)),
        decreases args@.len() - k,
    {
        let (is_named, param, arg) = args[k];
        let ghost before = ret@;
        proof {
            let pre1 = all.subrange(0, k + 1);
            assert(pre1.drop_last() =~= all.subrange(0, k as int));
            assert(pre1.last() == (is_named, param@, arg@));
        }
        if !(param.is_empty() && arg.is_empty()) {
            ret.append("\\\n");
            if is_named {
                ret.append("\t--");
            } else {
                ret.append("\t-");
            }
            let p = trim(param);
            ret.append(p.as_str());
            ret.append(" ");
            let a = trim(arg);
            ret.append(a.as_str());
            ret.append(" ");
            proof {
                assert(ret@ =~= before + arg_line((is_named, param@, arg@)));
            }
        } else {
            proof {
                assert(ret@ =~= before + arg_line((is_named, param@, arg@)));
            }
        }
        proof {
            assert(before + arg_line((is_named, param@, arg@)) =~= name@ + " "@ + arg_lines(
                all.subrange(0, k + 1),
            ));
        }
        k = k + 1;
    }
    proof {
        assert(all.subrange(0, k as int) =~= all);
    }
    ret.append("\n");
    ret
}

/// The counter's value after `steps` steps from `start`: each step adds one,
/// and the step behind the greatest value leads to zero.
pub open spec fn count_at(start: usize, steps: nat) -> usize
    decreases steps,
{
    if steps == 0 {
        start
    } else if count_at(start, (steps - 1) as nat) == usize::MAX {
        0
    } else {
        (count_at(start, (steps - 1) as nat) + 1) as usize
    }
}

/// The name of the public address with the given number.
pub open spec fn pip_name(c: usize) -> Seq<char> {
    "public-ip-"@ + decimal(c as nat)
}

/// The name under which a machine's public address is registered: the
/// resource group, the prefix and the machine's name, each without the white
/// space around it and in lower case, joined by dashes.
pub open spec fn dns_label(resource_group: Seq<char>, dns_prefix: Seq<char>, vm_name: Seq<char>) -> Seq<
    char,
> {
    lowered(trimmed(resource_group)) + "-"@ + lowered(trimmed(dns_prefix)) + "-"@ + lowered(
        trimmed(vm_name),
    )
}

/// The command that creates a public address.
pub open spec fn pip_command(
    cli: Seq<char>,
    resource_group: Seq<char>,
    label: Seq<char>,
    pip: Seq<char>,
) -> Seq<char> {
    shell_command(
        "\n"@ + cli + " network public-ip create"@,
        seq![
            (true, "resource-group"@, resource_group),
            (true, "dns-name"@, label),
            (true, "name"@, pip),
        ],
    )
}

/// The command that creates an interface; an interface with a public address
/// names that address.
pub open spec fn nic_command(
    cli: Seq<char>,
    resource_group: Seq<char>,
    nic: NicView,
    pip: Seq<char>,
) -> Seq<char> {
    let base = seq![
        (true, "resource-group"@, resource_group),
        (true, "name"@, nic.name),
        (true, "vnet-name"@, nic.vnet),
        (true, "subnet"@, nic.subnet),
        (true, "private-ip-address"@, dotted(nic.private_ip_address.value as nat)),
    ];
    shell_command(
        "\n"@ + cli + " network nic create"@,
        if nic.has_public_ip_address {
            base.push((true, "public-ip-address"@, pip))
        } else {
            base
        },
    )
}

/// What the interfaces of a machine add to its text.
pub struct NicParts {
    /// The commands that create the public addresses.
    pub pips: Seq<char>,
    /// The commands that create the interfaces.
    pub nics: Seq<char>,
    /// The names of the interfaces with a public address, each followed by a
    /// space.
    pub public_names: Seq<char>,
    /// The names of the other interfaces, each followed by a space.
    pub private_names: Seq<char>,
}

/// What the given interfaces add to the text of a machine. Each interface
/// takes the next number of the counter for its public address, whether it
/// has one or not.
pub open spec fn nic_parts(
    cli: Seq<char>,
    resource_group: Seq<char>,
    label: Seq<char>,
    nics: Seq<NicView>,
    start: usize,
) -> NicParts
    decreases nics.len(),
{
    if nics.len() == 0 {
        NicParts {
            pips: Seq::empty(),
            nics: Seq::empty(),
            public_names: Seq::empty(),
            private_names: Seq::empty(),
        }
    } else {
        let before = nic_parts(cli, resource_group, label, nics.drop_last(), start);
        let nic = nics.last();
        let pip = pip_name(count_at(start, (nics.len() - 1) as nat));
        NicParts {
            pips: if nic.has_public_ip_address {
                before.pips + pip_command(cli, resource_group, label, pip)
            } else {
                before.pips
            },
            nics: before.nics + nic_command(cli, resource_group, nic, pip),
            public_names: if nic.has_public_ip_address {
                before.public_names + nic.name + " "@
            } else {
                before.public_names
            },
            private_names: if nic.has_public_ip_address {
                before.private_names
            } else {
                before.private_names + nic.name + " "@
            },
        }
    }
}

/// The command that creates a machine with the given interfaces.
pub open spec fn vm_command(cli: Seq<char>, resource_group: Seq<char>, vm: Vm, nics: Seq<char>) -> Seq<
    char,
> {
    shell_command(
        "\n"@ + cli + " vm create"@,
        seq![
            (true, "resource-group"@, resource_group),
            (true, "name"@, vm.name@),
            (true, "nics"@, nics),
            (true, "image"@, vm.image@),
            (true, "size"@, vm.size@),
            (true, "admin-username"@, vm.admin_username@),
            (true, "admin-password"@, vm.admin_password@),
            (true, "authentication-type"@, vm.authentication_type@),
            (true, "public-ip-address-dns-name"@, vm.name@ + ".taas"@),
        ],
    )
}

/// The text that creates a machine: the commands for its public addresses,
/// those for its interfaces, and the command for the machine itself, which
/// names the interfaces with a public address before the others.
pub open spec fn whole_vm_script(
    cli: Seq<char>,
    resource_group: Seq<char>,
    dns_prefix: Seq<char>,
    vm: Vm,
    start: usize,
) -> Seq<char> {
    let parts = nic_parts(
        cli,
        resource_group,
        dns_label(resource_group, dns_prefix, vm.name@),
        nic_views(vm.nics@),
        start,
    );
    parts.pips + parts.nics + vm_command(
        cli,
        resource_group,
        vm,
        parts.public_names + parts.private_names,
    )
}

/// The text of a command and its subcommand, behind a line feed.
fn command_name(cli: &str, what: &str) -> (r: String)
    ensures
        r@ == "\n"@ + cli@ + what@,
{
    let mut name = String::from_str("\n");
    name.append(cli);
    name.append(what);
    name
}

/// Writes the commands that create a machine with its public addresses and
/// interfaces. `cli` is the provider's command, `dns_prefix` the prefix of
/// the names under which public addresses are registered. The counter gives
/// the public addresses their names and moves on by one for each interface.
pub fn generate_whole_vm_script(
    vm: &Vm,
    ws: &WholeSystem,
    cli: &str,
    dns_prefix: &str,
    public_ip_count: &mut usize,
) -> (r: String)
    ensures
        r@ == whole_vm_script(
            cli@,
            ws.global_config.resource_group@,
            dns_prefix@,
            *vm,
            *old(public_ip_count),
        ),
        *final(public_ip_count) == count_at(*old(public_ip_count), vm.nics@.len()),
{
    let rg = ws.global_config.resource_group.as_str();
    let mut sh_script = String::new();
    let mut nics_tmp_shell = String::new();
    let mut public_nic_names = String::new();
    let mut private_nic_names = String::new();
    let mut label = to_ascii_lowercase(trim(rg).as_str());
    label.append("-");
    label.append(to_ascii_lowercase(trim(dns_prefix).as_str()).as_str());
    label.append("-");
    label.append(to_ascii_lowercase(trim(vm.name.as_str()).as_str()).as_str());
    let ghost start = *public_ip_count;
    let ghost all = nic_views(vm.nics@);
    let mut k: usize = 0;
    proof {
        assert(all.subrange(0, 0) =~= Seq::<NicView>::empty());
    }
    while k < vm.nics.len()
        invariant
            k <= vm.nics@.len(),
            all == nic_views(vm.nics@),
            rg@ == ws.global_config.resource_group@,
            label@ == dns_label(rg@, dns_prefix@, vm.name@),
            *public_ip_count == count_at(start, k as nat),
            sh_script@ == nic_parts(cli@, rg@, label@, all.subrange(0, k as int), start).pips,
            nics_tmp_shell@ == nic_parts(cli@, rg@, label@, all.subrange(0, k as int), start).nics,
            public_nic_names@ == nic_parts(
                cli@,
                rg@,
                label@,
                all.subrange(0, k as int),
                start,
            ).public_names,
            private_nic_names@ == nic_parts(
                cli@,
                rg@,
                label@,
                all.subrange(0, k as int),
                start,
            ).private_names,
        decreases vm.nics@.len() - k,
    {
        let nic = &vm.nics[k];
        let private_ip = nic.private_ip_address.to_string();
        let curr_pip_count = *public_ip_count;
        *public_ip_count = if curr_pip_count == usize::MAX {
            0
        } else {
            curr_pip_count + 1
        };
        let mut pip = String::from_str("public-ip-");
        push_decimal(&mut pip, curr_pip_count as u64);
        proof {
            let pre1 = all.subrange(0, k + 1);
            assert(pre1.drop_last() =~= all.subrange(0, k as int));
            assert(pre1.last() == nic@);
        }
        let mut nic_params: Vec<(bool, &str, &str)> = Vec::new();
        nic_params.push((true, "resource-group", rg));
        nic_params.push((true, "name", nic.name.as_str()));
        nic_params.push((true, "vnet-name", nic.vnet.as_str()));
        nic_params.push((true, "subnet", nic.subnet.as_str()));
        nic_params.push((true, "private-ip-address", private_ip.as_str()));
        if nic.has_public_ip_address {
            let mut pip_params: Vec<(bool, &str, &str)> = Vec::new();
            pip_params.push((true, "resource-group", rg));
            pip_params.push((true, "dns-name", label.as_str()));
            pip_params.push((true, "name", pip.as_str()));
            proof {
                assert(args_view(pip_params@) =~= seq![
                    (true, "resource-group"@, rg@),
                    (true, "dns-name"@, label@),
                    (true, "name"@, pip@),
                ]);
            }
            let tmp = generate_shell_command(
                command_name(cli, " network public-ip create").as_str(),
                pip_params,
            );
            nic_params.push((true, "public-ip-address", pip.as_str()));
            sh_script.append(tmp.as_str());
            public_nic_names.append(nic.name.as_str());
            public_nic_names.append(" ");
            proof {
                assert(args_view(nic_params@) =~= seq![
                    (true, "resource-group"@, rg@),
                    (true, "name"@, nic@.name),
                    (true, "vnet-name"@, nic@.vnet),
                    (true, "subnet"@, nic@.subnet),
                    (true, "private-ip-address"@, dotted(nic@.private_ip_address.value as nat)),
                ].push((true, "public-ip-address"@, pip@)));
            }
        } else {
            private_nic_names.append(nic.name.as_str());
            private_nic_names.append(" ");
            proof {
                assert(args_view(nic_params@) =~= seq![
                    (true, "resource-group"@, rg@),
                    (true, "name"@, nic@.name),
                    (true, "vnet-name"@, nic@.vnet),
                    (true, "subnet"@, nic@.subnet),
                    (true, "private-ip-address"@, dotted(nic@.private_ip_address.value as nat)),
                ]);
            }
        }
        let tmp = generate_shell_command(
            command_name(cli, " network nic create").as_str(),
            nic_params,
        );
        nics_tmp_shell.append(tmp.as_str());
        k = k + 1;
    }
    proof {
        assert(all.subrange(0, k as int) =~= all);
    }
    sh_script.append(nics_tmp_shell.as_str());
    let mut dns_name = vm.name.clone();
    dns_name.append(".taas");
    let mut nics = public_nic_names;
    nics.append(private_nic_names.as_str());
    let mut vm_params: Vec<(bool, &str, &str)> = Vec::new();
    vm_params.push((true, "resource-group", rg));
    vm_params.push((true, "name", vm.name.as_str()));
    vm_params.push((true, "nics", nics.as_str()));
    vm_params.push((true, "image", vm.image.as_str()));
    vm_params.push((true, "size", vm.size.as_str()));
    vm_params.push((true, "admin-username", vm.admin_username.as_str()));
    vm_params.push((true, "admin-password", vm.admin_password.as_str()));
    vm_params.push((true, "authentication-type", vm.authentication_type.as_str()));
    vm_params.push((true, "public-ip-address-dns-name", dns_name.as_str()));
    proof {
        assert(args_view(vm_params@) =~= seq![
            (true, "resource-group"@, rg@),
            (true, "name"@, vm.name@),
            (true, "nics"@, nics@),
            (true, "image"@, vm.image@),
            (true, "size"@, vm.size@),
            (true, "admin-username"@, vm.admin_username@),
            (true, "admin-password"@, vm.admin_password@),
            (true, "authentication-type"@, vm.authentication_type@),
            (true, "public-ip-address-dns-name"@, vm.name@ + ".taas"@),
        ]);
    }
    let tmp = generate_shell_command(command_name(cli, " vm create").as_str(), vm_params);
    sh_script.append(tmp.as_str());
    sh_script
}

/// The command that creates the virtual network.
pub open spec fn vnet_script(cli: Seq<char>, ws: WholeSystem) -> Seq<char> {
    shell_command(
        "\n"@ + cli + " network vnet create"@,
        seq![
            (true, "resource-group"@, ws.global_config.resource_group@),
            (true, "name"@, ws.vnet.name@),
            (true, "address-prefixes"@, ws.vnet.address_prefixes.text()),
        ],
    )
}

/// Writes the command that creates the virtual network.
pub fn generate_vnet_script(ws: &WholeSystem, cli: &str) -> (r: String)
    ensures
        r@ == vnet_script(cli@, *ws),
{
    let prefix = ws.vnet.address_prefixes.to_string();
    let mut params: Vec<(bool, &str, &str)> = Vec::new();
    params.push((true, "resource-group", ws.global_config.resource_group.as_str()));
    params.push((true, "name", ws.vnet.name.as_str()));
    params.push((true, "address-prefixes", prefix.as_str()));
    proof {
        assert(args_view(params@) =~= seq![
            (true, "resource-group"@, ws.global_config.resource_group@),
            (true, "name"@, ws.vnet.name@),
            (true, "address-prefixes"@, ws.vnet.address_prefixes.text()),
        ]);
    }
    generate_shell_command(command_name(cli, " network vnet create").as_str(), params)
}

/// The commands that create the first `upto` subnets.
pub open spec fn subnet_scripts(cli: Seq<char>, ws: WholeSystem, upto: int) -> Seq<char>
    decreases upto,
{
    if upto <= 0 {
        Seq::empty()
    } else {
        subnet_scripts(cli, ws, upto - 1) + shell_command(
            "\n"@ + cli + " network vnet subnet create"@,
            seq![
                (true, "resource-group"@, ws.global_config.resource_group@),
                (true, "name"@, ws.subnets@[upto - 1].name@),
                (true, "vnet-name"@, ws.vnet.name@),
                (true, "address-prefixes"@, ws.subnets@[upto - 1].address_prefixes.text()),
            ],
        )
    }
}

/// Writes the commands that create the subnets.
pub fn generate_subnet_scripts(ws: &WholeSystem, cli: &str) -> (r: String)
    ensures
        r@ == subnet_scripts(cli@, *ws, ws.subnets@.len() as int),
{
    let mut ret = String::new();
    let mut k: usize = 0;
    while k < ws.subnets.len()
        invariant
            k <= ws.subnets@.len(),
            ret@ == subnet_scripts(cli@, *ws, k as int),
        decreases ws.subnets@.len() - k,
    {
        let subnet = &ws.subnets[k];
        let prefix = subnet.address_prefixes.to_string();
        let mut params: Vec<(bool, &str, &str)> = Vec::new();
        params.push((true, "resource-group", ws.global_config.resource_group.as_str()));
        params.push((true, "name", subnet.name.as_str()));
        params.push((true, "vnet-name", ws.vnet.name.as_str()));
        params.push((true, "address-prefixes", prefix.as_str()));
        proof {
            assert(args_view(params@) =~= seq![
                (true, "resource-group"@, ws.global_config.resource_group@),
                (true, "name"@, subnet.name@),
                (true, "vnet-name"@, ws.vnet.name@),
                (true, "address-prefixes"@, subnet.address_prefixes.text()),
            ]);
        }
        let tmp = generate_shell_command(
            command_name(cli, " network vnet subnet create").as_str(),
            params,
        );
        ret.append(tmp.as_str());
        k = k + 1;
    }
    ret
}

/// How many interfaces the first `upto` machines have.
pub open spec fn nics_before(ws: WholeSystem, upto: int) -> nat
    decreases upto,
{
    if upto <= 0 {
        0
    } else {
        nics_before(ws, upto - 1) + ws.vms@[upto - 1].nics@.len()
    }
}

/// Writes the commands that create a deployment: the text for the network
/// creates the virtual network and then its subnets; the text of each machine
/// creates its public addresses, its interfaces and the machine. The counter
/// gives the public addresses their names: it moves on by one for each
/// interface, machine after machine.
pub fn emit_new(ws: &WholeSystem, cli: &str, dns_prefix: &str, public_ip_count: &mut usize) -> (r:
    EmitterSystem)
    ensures
        r.network@ == vnet_script(cli@, *ws) + subnet_scripts(cli@, *ws, ws.subnets@.len() as int),
        r.vms@.len() == ws.vms@.len(),
        forall|v: int|
            0 <= v < ws.vms@.len() ==> (#[trigger] r.vms@[v])@ == whole_vm_script(
                cli@,
                ws.global_config.resource_group@,
                dns_prefix@,
                ws.vms@[v],
                count_at(*old(public_ip_count), nics_before(*ws, v)),
            ),
        *final(public_ip_count) == count_at(
            *old(public_ip_count),
            nics_before(*ws, ws.vms@.len() as int),
        ),
{
    let mut vm_scripts: Vec<String> = Vec::new();
    let mut net_script = String::new();
    net_script.append(generate_vnet_script(ws, cli).as_str());
    net_script.append(generate_subnet_scripts(ws, cli).as_str());
    let ghost start = *public_ip_count;
    let mut k: usize = 0;
    while k < ws.vms.len()
        invariant
            k <= ws.vms@.len(),
            vm_scripts@.len() == k,
            *public_ip_count == count_at(start, nics_before(*ws, k as int)),
            forall|v: int|
                0 <= v < k ==> (#[trigger] vm_scripts@[v])@ == whole_vm_script(
                    cli@,
                    ws.global_config.resource_group@,
                    dns_prefix@,
                    ws.vms@[v],
                    count_at(start, nics_before(*ws, v)),
                ),
        decreases ws.vms@.len() - k,
    {
        proof {
            lemma_count_at_adds(start, nics_before(*ws, k as int), ws.vms@[k as int].nics@.len());
        }
        let new_vm = generate_whole_vm_script(&ws.vms[k], ws, cli, dns_prefix, public_ip_count);
        vm_scripts.push(new_vm);
        k = k + 1;
    }
    EmitterSystem { network: net_script, vms: vm_scripts }
}

/// Steps of the counter add up.
pub proof fn lemma_count_at_adds(start: usize, a: nat, b: nat)
    ensures
        count_at(count_at(start, a), b) == count_at(start, a + b),
    decreases b,
{
    if b > 0 {
        lemma_count_at_adds(start, a, (b - 1) as nat);
    }
}

} // verus!
