//! Machine sizes of the provider, and the choice of one for a machine.

use vstd::prelude::*;
use vstd::string::StringExecFns;
use crate::cloud_functions::VmHardwareProperties;
use crate::utils::text::{chars_of, number_of, parse_usize, push_char, str_equal, trim, trimmed};

verus! {

/// The properties of a machine size that the choice reads.
#[derive(Debug)]
pub struct AzureProperties {
    pub name: String,
    pub core_count: usize,
    pub ram_gb: usize,
    pub max_disk_count: usize,
    pub max_disk_capacity_gb: usize,
}

impl VmHardwareProperties for AzureProperties {
    open spec fn name_spec(&self) -> Seq<char> {
        self.name@
    }

    open spec fn figures(&self) -> (usize, usize, usize, usize) {
        (self.core_count, self.ram_gb, self.max_disk_count, self.max_disk_capacity_gb)
    }

    fn name(&self) -> (r: String) {
        self.name.clone()
    }

    fn core_count(&self) -> (r: usize) {
        self.core_count
    }

    fn ram_gb(&self) -> (r: usize) {
        self.ram_gb
    }

    fn max_disk_count(&self) -> (r: usize) {
        self.max_disk_count
    }

    fn max_disk_capacity_gb(&self) -> (r: usize) {
        self.max_disk_capacity_gb
    }
}

impl AzureProperties {
    /// A copy of the properties.
    pub fn duplicate(&self) -> (r: Self)
        ensures
            r == *self,
    {
        AzureProperties {
            name: self.name.clone(),
            core_count: self.core_count,
            ram_gb: self.ram_gb,
            max_disk_count: self.max_disk_count,
            max_disk_capacity_gb: self.max_disk_capacity_gb,
        }
    }
}

/// Whether `have` is within `deviation` of what is asked for; anything is
/// where nothing is asked for.
pub open spec fn within(asked: Option<usize>, have: usize, deviation: int) -> bool {
    match asked {
        Some(a) => a - deviation <= have <= a + deviation,
        None => true,
    }
}

/// Whether a size fits at a lenience: its cores are within a quarter of the
/// lenience, rounded down, of those asked for, and its memory within the
/// lenience.
pub open spec fn fits(
    p: AzureProperties,
    core_count: Option<usize>,
    ram_gb: Option<usize>,
    lenience: int,
) -> bool {
    within(core_count, p.core_count, lenience / 4) && within(ram_gb, p.ram_gb, lenience)
}

/// How far `have` is from what is asked for.
pub open spec fn distance(asked: Option<usize>, have: usize) -> int {
    match asked {
        Some(a) => if a <= have {
            have - a
        } else {
            a - have
        },
        None => 0,
    }
}

/// The least lenience at which a size fits.
pub open spec fn needed_lenience(
    p: AzureProperties,
    core_count: Option<usize>,
    ram_gb: Option<usize>,
) -> int {
    let c = 4 * distance(core_count, p.core_count);
    let r = distance(ram_gb, p.ram_gb);
    if c >= r {
        c
    } else {
        r
    }
}

/// A size fits at exactly the leniences from its needed lenience on.
pub proof fn lemma_fits_from_needed(
    p: AzureProperties,
    core_count: Option<usize>,
    ram_gb: Option<usize>,
    lenience: int,
)
    requires
        lenience >= 0,
    ensures
        fits(p, core_count, ram_gb, lenience) <==> lenience >= needed_lenience(
            p,
            core_count,
            ram_gb,
        ),
{
}

/// Whether the size at `k` is the choice at lenience `lenience`: no size
/// fits at a lower lenience, this one fits at this lenience, and no size
/// before it does.
pub open spec fn is_choice(
    catalog: Seq<AzureProperties>,
    core_count: Option<usize>,
    ram_gb: Option<usize>,
    k: int,
    lenience: int,
) -> bool {
    &&& 0 <= k < catalog.len()
    &&& 0 <= lenience
    &&& fits(catalog[k], core_count, ram_gb, lenience)
    &&& forall|j: int| 0 <= j < k ==> !fits(#[trigger] catalog[j], core_count, ram_gb, lenience)
    &&& forall|j: int, l: int|
        0 <= j < catalog.len() && 0 <= l < lenience ==> !#[trigger] fits(
            catalog[j],
            core_count,
            ram_gb,
            l,
        )
}

/// How far `have` is from what is asked for.
pub fn distance_of(asked: Option<usize>, have: usize) -> (r: u128)
    ensures
        r == distance(asked, have),
{
    match asked {
        Some(a) => if a <= have {
            (have - a) as u128
        } else {
            (a - have) as u128
        },
        None => 0,
    }
}

/// The least lenience at which a size fits.
pub fn needed_lenience_of(p: &AzureProperties, core_count: Option<usize>, ram_gb: Option<usize>) -> (r:
    u128)
    ensures
        r == needed_lenience(*p, core_count, ram_gb),
{
    let c: u128 = 4 * distance_of(core_count, p.core_count);
    let r: u128 = distance_of(ram_gb, p.ram_gb);
    if c >= r {
        c
    } else {
        r
    }
}

/// Finds the size for a machine: the search starts at lenience zero and adds
/// one until a size of the catalog fits; of the sizes that fit then, the first
/// in the catalog is taken. Gives its place and the lenience; `None` for an
/// empty catalog.
pub fn best_match_index(
    core_count: Option<usize>,
    ram_gb: Option<usize>,
    catalog: &Vec<AzureProperties>,
) -> (r: Option<(usize, u128)>)
    ensures
        r is None <==> catalog@.len() == 0,
        match r {
            Some((k, lenience)) => is_choice(
                catalog@,
                core_count,
                ram_gb,
                k as int,
                lenience as int,
            ),
            None => true,
        },
{
    if catalog.len() == 0 {
        return None;
    }
    let mut best: usize = 0;
    let mut least: u128 = needed_lenience_of(&catalog[0], core_count, ram_gb);
    let mut k: usize = 1;
    while k < catalog.len()
        invariant
            1 <= k <= catalog@.len(),
            best < k,
            least == needed_lenience(catalog@[best as int], core_count, ram_gb),
            forall|j: int|
                0 <= j < k ==> least <= needed_lenience(#[trigger] catalog@[j], core_count, ram_gb),
            forall|j: int|
                0 <= j < best ==> least < needed_lenience(
                    #[trigger] catalog@[j],
                    core_count,
                    ram_gb,
                ),
        decreases catalog@.len() - k,
    {
        let need = needed_lenience_of(&catalog[k], core_count, ram_gb);
        if need < least {
            best = k;
            least = need;
        }
        k = k + 1;
    }
    proof {
        let cat = catalog@;
        assert forall|j: int| 0 <= j < best implies !fits(
            #[trigger] cat[j],
            core_count,
            ram_gb,
            least as int,
        ) by {
            lemma_fits_from_needed(cat[j], core_count, ram_gb, least as int);
        }
        assert forall|j: int, l: int| 0 <= j < cat.len() && 0 <= l < least implies !#[trigger] fits(
            cat[j],
            core_count,
            ram_gb,
            l,
        ) by {
            lemma_fits_from_needed(cat[j], core_count, ram_gb, l);
        }
        lemma_fits_from_needed(cat[best as int], core_count, ram_gb, least as int);
    }
    Some((best, least))
}

/// The size for a machine that asks for `core_count` cores and `ram_gb`
/// gigabytes of memory: the first size of the catalog that fits at the least
/// lenience at which any size fits. `None` for an empty catalog.
pub fn find_best_matching_vm_name(
    core_count: Option<usize>,
    ram_gb: Option<usize>,
    catalog: &Vec<AzureProperties>,
) -> (r: Option<AzureProperties>)
    ensures
        r is None <==> catalog@.len() == 0,
        r is Some ==> exists|k: int, lenience: int|
            #[trigger] is_choice(catalog@, core_count, ram_gb, k, lenience) && r->0 == catalog@[k],
{
    match best_match_index(core_count, ram_gb, catalog) {
        Some((k, lenience)) => {
            proof {
                assert(is_choice(catalog@, core_count, ram_gb, k as int, lenience as int));
            }
            Some(catalog[k].duplicate())
        },
        None => None,
    }
}

/// One property of a machine size, as the provider lists it.
#[derive(Debug)]
pub struct AzureVMCapabilities {
    pub name: String,
    pub value: String,
}

/// A machine size, as the provider lists it.
#[derive(Debug)]
pub struct AzureVMSize {
    pub name: Option<String>,
    pub tier: Option<String>,
    pub capabilities: Option<Vec<AzureVMCapabilities>>,
}

/// The name and the tier of a machine size for which the provider lists
/// none.
pub fn default_str() -> (r: Option<String>)
    ensures
        r is Some,
        r->0@ == "default:("@,
{
    Some(String::from_str("default:("))
}

/// The value of the first property at or behind `from` with the given name,
/// read as a number; zero where no property has the name, or where its value
/// spells no number that fits the machine's word.
pub open spec fn prop_from(caps: Seq<AzureVMCapabilities>, name: Seq<char>, from: int) -> usize
    decreases caps.len() - from,
{
    if from < 0 || from >= caps.len() {
        0
    } else if caps[from].name@ == name {
        match number_of(caps[from].value@) {
            Some(v) => if v <= usize::MAX {
                v as usize
            } else {
                0
            },
            None => 0,
        }
    } else {
        prop_from(caps, name, from + 1)
    }
}

/// The value of the first property with the given name, read as a number;
/// zero where there is none.
pub fn get_prop(caps: &Vec<AzureVMCapabilities>, name: &str) -> (r: usize)
    ensures
        r == prop_from(caps@, name@, 0),
{
    let mut k: usize = 0;
    while k < caps.len()
        invariant
            k <= caps@.len(),
            prop_from(caps@, name@, 0) == prop_from(caps@, name@, k as int),
        decreases caps@.len() - k,
    {
        if str_equal(caps[k].name.as_str(), name) {
            let chars = chars_of(caps[k].value.as_str());
            return match parse_usize(&chars) {
                Some(v) => v,
                None => 0,
            };
        }
        k = k + 1;
    }
    0
}

/// The lesser of two numbers.
pub open spec fn lesser(a: usize, b: usize) -> usize {
    if a <= b {
        a
    } else {
        b
    }
}

/// What the choice reads of a listed size: its name, its cores, its memory,
/// the number of its data disks, and the lesser of the sizes of its resource
/// volume and of its system disk, in gigabytes.
pub open spec fn info_of(vm: AzureVMSize) -> (Seq<char>, usize, usize, usize, usize) {
    let caps = vm.capabilities->0@;
    (
        vm.name->0@,
        prop_from(caps, "vCPUs"@, 0),
        prop_from(caps, "MemoryGB"@, 0),
        prop_from(caps, "MaxDataDiskCount"@, 0),
        (lesser(prop_from(caps, "MaxResourceVolumeMB"@, 0), prop_from(caps, "OSVhdSizeMB"@, 0))
            / 1024) as usize,
    )
}

/// What the choice reads of the first `upto` listed sizes: one entry for
/// each that has a name and properties, in order.
pub open spec fn info_upto(vms: Seq<AzureVMSize>, upto: int) -> Seq<
    (Seq<char>, usize, usize, usize, usize),
>
    decreases upto,
{
    if upto <= 0 {
        Seq::empty()
    } else if vms[upto - 1].capabilities is Some && vms[upto - 1].name is Some {
        info_upto(vms, upto - 1).push(info_of(vms[upto - 1]))
    } else {
        info_upto(vms, upto - 1)
    }
}

/// The properties as plain values.
pub open spec fn props_view(v: Seq<AzureProperties>) -> Seq<(Seq<char>, usize, usize, usize, usize)> {
    Seq::new(
        v.len(),
        |i: int|
            (v[i].name@, v[i].core_count, v[i].ram_gb, v[i].max_disk_count, v[i].max_disk_capacity_gb),
    )
}

/// What the choice reads of the listed sizes: one entry for each listed size
/// that has a name and properties, in order.
pub fn get_important_info(vms: &Vec<AzureVMSize>) -> (r: Vec<AzureProperties>)
    ensures
        props_view(r@) == info_upto(vms@, vms@.len() as int),
{
    let mut ret: Vec<AzureProperties> = Vec::new();
    let mut i: usize = 0;
    proof {
        assert(props_view(ret@) =~= Seq::<(Seq<char>, usize, usize, usize, usize)>::empty());
    }
    while i < vms.len()
        invariant
            i <= vms@.len(),
            props_view(ret@) == info_upto(vms@, i as int),
        decreases vms@.len() - i,
    {
        let vm = &vms[i];
        match (&vm.capabilities, &vm.name) {
            (Some(cap_map), Some(name)) => {
                let core_count = get_prop(cap_map, "vCPUs");
                let ram_gb = get_prop(cap_map, "MemoryGB");
                let max_disk_count = get_prop(cap_map, "MaxDataDiskCount");
                let volume = get_prop(cap_map, "MaxResourceVolumeMB");
                let system = get_prop(cap_map, "OSVhdSizeMB");
                let least = if volume <= system {
                    volume
                } else {
                    system
                };
                let ghost before = props_view(ret@);
                ret.push(
                    AzureProperties {
                        name: name.clone(),
                        core_count,
                        ram_gb,
                        max_disk_count,
                        max_disk_capacity_gb: least / 1024,
                    },
                );
                proof {
                    assert(props_view(ret@) =~= before.push(info_of(*vm)));
                }
            },
            _ => {},
        }
        i = i + 1;
    }
    ret
}

/// The text of the octets of `input` in base 64, with the standard alphabet
/// and padding.
pub uninterp spec fn base64_text(input: Seq<char>) -> Seq<char>;

/// The text of a script in base 64.
///
/// Trusted: names what `base64::encode` returns for the octets of the text.
/// The call computes its result from those octets alone; it gives up only
/// where four thirds of the input's length exceed the machine's word, which
/// no text in memory reaches.
#[verifier::external_body]
pub(crate) fn encode_base64(text: &str) -> (r: String)
    ensures
        r@ == base64_text(text@),
{
    base64::encode(text)
}

/// The settings that carry an encoded script to a machine.
pub fn script_settings(encoded: &str) -> (r: String)
    ensures
        r@ == "{\n\t\"script\": \""@ + encoded@ + "\"\n}"@,
{
    let mut text = String::from_str("{\n\t\"script\": \"");
    text.append(encoded);
    text.append("\"\n}");
    text
}

/// A script on its way to a machine: the file with the settings, and the
/// command that hands the file to the provider.
#[derive(Debug)]
pub struct ScriptUpload {
    pub file_name: String,
    pub file_text: String,
    pub command: String,
}

/// Prepares the upload of a script to a machine as a custom extension: the
/// settings hold the script in base 64, and stand in a file named after the
/// machine.
pub fn send_and_exec_script(machine_name: &str, script_text: &str, cli: &str, resource_group: &str) -> (r:
    ScriptUpload)
    ensures
        r.file_name@ == machine_name@ + "-b64script.json"@,
        r.file_text@ == "{\n\t\"script\": \""@ + base64_text(script_text@) + "\"\n}"@,
        r.command@ == cli@ + " vm extension set --resource-group "@ + resource_group@
            + " --vm-name "@ + machine_name@
            + " --name customScript --publisher Microsoft.Azure.Extensions --settings ./"@
            + r.file_name@,
{
    let b64encoded = encode_base64(script_text);
    let mut json_fn = String::from_str(machine_name);
    json_fn.append("-b64script.json");
    let file_text = script_settings(b64encoded.as_str());
    let mut command = String::from_str(cli);
    command.append(" vm extension set --resource-group ");
    command.append(resource_group);
    command.append(" --vm-name ");
    command.append(machine_name);
    command.append(" --name customScript --publisher Microsoft.Azure.Extensions --settings ./");
    command.append(json_fn.as_str());
    ScriptUpload { file_name: json_fn, file_text, command }
}

/// The command that runs a short script on a machine.
pub fn send_and_exec_script_small(
    machine_name: &str,
    script_text: &str,
    cli: &str,
    resource_group: &str,
) -> (r: String)
    ensures
        r@ == cli@ + " vm run-command invoke -g "@ + resource_group@ + " -n "@ + machine_name@
            + " --command-id RunShellScript --scripts '"@ + script_text@ + "'"@,
{
    let mut command = String::from_str(cli);
    command.append(" vm run-command invoke -g ");
    command.append(resource_group);
    command.append(" -n ");
    command.append(machine_name);
    command.append(" --command-id RunShellScript --scripts '");
    command.append(script_text);
    command.append("'");
    command
}

/// The command that asks for the public address of a machine.
pub fn get_public_ip(vm_name: &str, cli: &str, resource_group: &str) -> (r: String)
    ensures
        r@ == cli@ + " vm show -d -g "@ + resource_group@ + " -n "@ + vm_name@
            + " --query publicIps -o tsv"@,
{
    let mut command = String::from_str(cli);
    command.append(" vm show -d -g ");
    command.append(resource_group);
    command.append(" -n ");
    command.append(vm_name);
    command.append(" --query publicIps -o tsv");
    command
}

/// The command that lists what a resource group holds.
pub fn clear_resource_group_v2(rg_name: &str, cli: &str) -> (r: String)
    ensures
        r@ == cli@ + " resource list -g '"@ + rg_name@ + "' --query '[].id' -o tsv"@,
{
    let mut command = String::from_str(cli);
    command.append(" resource list -g '");
    command.append(rg_name);
    command.append("' --query '[].id' -o tsv");
    command
}

/// The text with each line feed turned into a space.
pub open spec fn on_one_line(s: Seq<char>) -> Seq<char> {
    Seq::new(
        s.len(),
        |i: int|
            if s[i] == '\n' {
                ' '
            } else {
                s[i]
            },
    )
}

/// The command that deletes the resources that a listing names, one on each
/// line; `None` for a listing that names none.
pub fn resource_delete_command(listing: &str, cli: &str) -> (r: Option<String>)
    ensures
        match r {
            Some(c) => trimmed(listing@).len() > 0 && c@ == cli@ + " resource delete --ids "@
                + on_one_line(trimmed(listing@)),
            None => trimmed(listing@).len() == 0,
        },
{
    let ids = trim(listing);
    if ids.as_str().is_empty() {
        return None;
    }
    let chars = chars_of(ids.as_str());
    let mut command = String::from_str(cli);
    command.append(" resource delete --ids ");
    let ghost head = command@;
    let mut k: usize = 0;
    proof {
        assert(head + on_one_line(chars@).subrange(0, 0) =~= head);
    }
    while k < chars.len()
        invariant
            k <= chars@.len(),
            command@ == head + on_one_line(chars@).subrange(0, k as int),
        decreases chars@.len() - k,
    {
        let c = chars[k];
        push_char(
            &mut command,
            if c == '\n' {
                ' '
            } else {
                c
            },
        );
        proof {
            assert(command@ =~= head + on_one_line(chars@).subrange(0, k + 1));
        }
        k = k + 1;
    }
    proof {
        assert(on_one_line(chars@).subrange(0, k as int) =~= on_one_line(chars@));
    }
    Some(command)
}

/// Why the provider's tool cannot be used.
#[derive(Clone, Copy, Debug, PartialEq, Eq, Structural)]
pub enum CliError {
    /// The tool is not installed where the configuration says.
    NotInstalled,
    /// The tool is installed, and nobody is logged in.
    NotLoggedIn,
}

/// Whether somebody is logged in to the provider's tool, judged by the way
/// its account query ended.
pub fn check_logged_in(account_query_exit_code: Option<isize>) -> (r: Result<(), CliError>)
    ensures
        r == if account_query_exit_code is Some && account_query_exit_code->0 != 0 {
            Err::<(), CliError>(CliError::NotLoggedIn)
        } else {
            Ok::<(), CliError>(())
        },
{
    match account_query_exit_code {
        Some(code) => if code != 0 {
            Err(CliError::NotLoggedIn)
        } else {
            Ok(())
        },
        None => Ok(()),
    }
}

/// Whether the provider's tool can be used: it must be installed, and its
/// account query must not end with an exit code other than zero.
pub fn check_azure_cli_install(installed: bool, account_query_exit_code: Option<isize>) -> (r: Result<
    (),
    CliError,
>)
    ensures
        r == if !installed {
            Err::<(), CliError>(CliError::NotInstalled)
        } else if account_query_exit_code is Some && account_query_exit_code->0 != 0 {
            Err::<(), CliError>(CliError::NotLoggedIn)
        } else {
            Ok::<(), CliError>(())
        },
{
    if installed {
        check_logged_in(account_query_exit_code)
    } else {
        Err(CliError::NotInstalled)
    }
}

/// The name of the file that holds the template of an empty deployment.
pub const CLEAR_FN: &'static str = "removeall.json";

/// The template of a deployment without resources.
pub const DELETE_RG: &'static str =
    "{\n\"$schema\": \"https://schema.management.azure.com/schemas/2015-01-01/deploymentTemplate.json#\",\n\"contentVersion\": \"1.0.0.0\",\n\"parameters\": { },\n\"variables\": { },\n\"resources\": [ ],\n\"outputs\": { }\n}\n";

/// What empties a resource group by deploying nothing to it: a file with a
/// template, and the command that deploys it.
#[derive(Debug)]
pub struct ClearPlan {
    pub file_name: String,
    pub file_text: String,
    pub command: String,
}

/// Plans the emptying of a resource group: the template of a deployment
/// without resources is deployed to the group in complete mode, which removes
/// what the group holds. The group itself stays.
pub fn clear_resource_group(rg_name: &str, cli: &str) -> (r: ClearPlan)
    ensures
        r.file_name@ == CLEAR_FN@,
        r.file_text@ == DELETE_RG@,
        r.command@ == cli@ + " group deployment create --mode complete --template-file "@
            + CLEAR_FN@ + " --resource-group "@ + rg_name@,
{
    let mut command = String::from_str(cli);
    command.append(" group deployment create --mode complete --template-file ");
    command.append(CLEAR_FN);
    command.append(" --resource-group ");
    command.append(rg_name);
    ClearPlan {
        file_name: String::from_str(CLEAR_FN),
        file_text: String::from_str(DELETE_RG),
        command,
    }
}

} // verus!
