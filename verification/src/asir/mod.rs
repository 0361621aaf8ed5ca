//! What every representation of a machine has in common.

use vstd::prelude::*;
use vstd::string::StringExecFns;

verus! {

/// The names under which an operating system is looked for, in three classes:
/// names given by the user, common nicknames, and approximate names.
#[derive(Debug)]
pub struct OsCandidates {
    pub custom_os: Vec<String>,
    pub common_os: Vec<String>,
    pub approx_os: Vec<String>,
}

impl OsCandidates {
    /// The candidates that hold the one common nickname `os`.
    pub fn common_only(os: &str) -> (r: Self)
        ensures
            r.custom_os@.len() == 0,
            r.approx_os@.len() == 0,
            r.common_os@.len() == 1,
            r.common_os@[0]@ == os@,
    {
        let mut common: Vec<String> = Vec::new();
        common.push(String::from_str(os));
        OsCandidates { custom_os: Vec::new(), common_os: common, approx_os: Vec::new() }
    }

    /// All names: the custom ones, then the common ones, then the approximate
    /// ones.
    pub open spec fn all_names(&self) -> Seq<String> {
        self.custom_os@ + self.common_os@ + self.approx_os@
    }

    /// A copy of the candidates.
    pub fn duplicate(&self) -> (r: Self)
        ensures
            r.custom_os@ == self.custom_os@,
            r.common_os@ == self.common_os@,
            r.approx_os@ == self.approx_os@,
    {
        OsCandidates {
            custom_os: copy_strings(&self.custom_os),
            common_os: copy_strings(&self.common_os),
            approx_os: copy_strings(&self.approx_os),
        }
    }
}

/// A copy of a list of strings.
pub fn copy_strings(v: &Vec<String>) -> (r: Vec<String>)
    ensures
        r@ == v@,
{
    let mut out: Vec<String> = Vec::new();
    let mut k: usize = 0;
    while k < v.len()
        invariant
            k <= v@.len(),
            out@ == v@.subrange(0, k as int),
        decreases v@.len() - k,
    {
        out.push(v[k].clone());
        proof {
            assert(out@ =~= v@.subrange(0, k + 1));
        }
        k = k + 1;
    }
    proof {
        assert(out@ =~= v@);
    }
    out
}

/// The operating system of a machine.
pub trait Os {
    /// The names under which the system is looked for.
    spec fn candidates_spec(&self) -> OsCandidates;

    /// The first common nickname.
    fn get_common(&self) -> (r: String)
        requires
            self.candidates_spec().common_os@.len() > 0,
        ensures
            r == self.candidates_spec().common_os@[0],
    ;

    /// The first of all names.
    fn get_name(&self) -> (r: String)
        requires
            self.candidates_spec().all_names().len() > 0,
        ensures
            r == self.candidates_spec().all_names()[0],
    ;

    /// All names: the custom ones, then the common ones, then the approximate
    /// ones.
    fn get_all(&self) -> (r: Vec<String>)
        ensures
            r@ == self.candidates_spec().all_names(),
    ;
}

/// The hardware of a machine as its owner describes it.
pub trait RealHwConfig {
    /// How a disk is described.
    #[allow(non_camel_case_types)]
    type disk_type;

    /// The hardware as plain numbers: frequency, cores, memory.
    spec fn figures(&self) -> (usize, usize, usize);

    /// The disks.
    spec fn disks_spec(&self) -> Seq<Self::disk_type>;

    /// Processor frequency in megahertz.
    fn cpu_freq_mhz(&self) -> (r: usize)
        ensures
            r == self.figures().0,
    ;

    /// Number of processor cores.
    fn cpu_cores(&self) -> (r: usize)
        ensures
            r == self.figures().1,
    ;

    /// Memory in gigabytes.
    fn ram_gb(&self) -> (r: usize)
        ensures
            r == self.figures().2,
    ;

    /// The disks.
    fn disks(&self) -> (r: Vec<Self::disk_type>)
        ensures
            r@.len() == self.disks_spec().len(),
    ;
}

/// The hardware of a machine as a provider offers it.
pub trait CloudHwConfig {
    /// The name under which the provider offers the hardware.
    fn name(&self) -> String;

    /// The hardware in a few words.
    fn summary(&self) -> String;
}

/// A way to log in to a machine.
pub trait Auth {
    /// The way in words.
    fn to_string(&self) -> String;
}

/// A machine, whatever the representation.
pub trait Vm<O: Os> {
    /// The machine's name.
    spec fn name_spec(&self) -> Seq<char>;

    /// The machine's operating system.
    spec fn os_spec(&self) -> O;

    /// The machine's name.
    fn get_name(&self) -> (r: String)
        ensures
            r@ == self.name_spec(),
    ;

    /// The machine's operating system.
    fn get_os(&self) -> (r: &O)
        ensures
            *r == self.os_spec(),
    ;

    /// The first name of the machine's operating system.
    fn os_name(&self) -> (r: String)
        requires
            self.os_spec().candidates_spec().all_names().len() > 0,
        ensures
            r == self.os_spec().candidates_spec().all_names()[0],
    ;
}

} // verus!
