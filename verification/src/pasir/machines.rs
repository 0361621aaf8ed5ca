//! The machines of the physical representation.

use vstd::prelude::*;
use crate::asir;
use crate::asir::{OsCandidates, copy_strings};

verus! {

/// The operating system of a machine, by the names it is looked for under.
#[derive(Debug)]
pub struct Os {
    pub candidates: OsCandidates,
}

impl asir::Os for Os {
    open spec fn candidates_spec(&self) -> OsCandidates {
        self.candidates
    }

    fn get_common(&self) -> (r: String) {
        self.candidates.common_os[0].clone()
    }

    fn get_name(&self) -> (r: String) {
        if self.candidates.custom_os.len() > 0 {
            self.candidates.custom_os[0].clone()
        } else if self.candidates.common_os.len() > 0 {
            self.candidates.common_os[0].clone()
        } else {
            self.candidates.approx_os[0].clone()
        }
    }

    fn get_all(&self) -> (r: Vec<String>) {
        let mut ret: Vec<String> = copy_strings(&self.candidates.custom_os);
        let mut k: usize = 0;
        while k < self.candidates.common_os.len()
            invariant
                k <= self.candidates.common_os@.len(),
                ret@ == self.candidates.custom_os@ + self.candidates.common_os@.subrange(
                    0,
                    k as int,
                ),
            decreases self.candidates.common_os@.len() - k,
        {
            ret.push(self.candidates.common_os[k].clone());
            proof {
                assert(ret@ =~= self.candidates.custom_os@ + self.candidates.common_os@.subrange(
                    0,
                    k + 1,
                ));
            }
            k = k + 1;
        }
        proof {
            assert(self.candidates.common_os@.subrange(0, k as int) =~= self.candidates.common_os@);
        }
        let mut j: usize = 0;
        while j < self.candidates.approx_os.len()
            invariant
                j <= self.candidates.approx_os@.len(),
                ret@ == self.candidates.custom_os@ + self.candidates.common_os@
                    + self.candidates.approx_os@.subrange(0, j as int),
            decreases self.candidates.approx_os@.len() - j,
        {
            ret.push(self.candidates.approx_os[j].clone());
            proof {
                assert(ret@ =~= self.candidates.custom_os@ + self.candidates.common_os@
                    + self.candidates.approx_os@.subrange(0, j + 1));
            }
            j = j + 1;
        }
        proof {
            assert(self.candidates.approx_os@.subrange(0, j as int) =~= self.candidates.approx_os@);
        }
        ret
    }
}

/// The kind of a disk.
#[derive(Clone, Copy, Debug, PartialEq, Eq, Structural)]
#[allow(non_camel_case_types)]
pub enum DiskType {
    HDD,
    SSD,
    NVM,
    OTHER1,
    OTHER2,
    OTHER3,
}

/// One disk. The grade is a number that a provider may read as a speed tier.
#[derive(Clone, Copy, Debug, PartialEq, Eq, Structural)]
pub struct Disk {
    pub is_main: bool,
    pub capacity_gb: usize,
    pub tpe: DiskType,
    pub grade: u8,
}

impl Disk {
    /// The disk of a machine that asks for nothing else: a main solid-state
    /// disk of 1000 gigabytes of the highest grade.
    pub fn default() -> (r: Self)
        ensures
            r == (Disk { is_main: true, capacity_gb: 1000, tpe: DiskType::SSD, grade: 255 }),
    {
        Disk { is_main: true, capacity_gb: 1000, tpe: DiskType::SSD, grade: 255 }
    }
}

/// The hardware that a machine asks for.
#[derive(Debug)]
pub struct HwConfig {
    pub cpu_freq_mhz: usize,
    pub cpu_cores: usize,
    pub ram_gb: usize,
    pub storage: Vec<Disk>,
}

/// A copy of a list of disks.
pub fn copy_disks(v: &Vec<Disk>) -> (r: Vec<Disk>)
    ensures
        r@ == v@,
{
    let mut out: Vec<Disk> = Vec::new();
    let mut k: usize = 0;
    while k < v.len()
        invariant
            k <= v@.len(),
            out@ == v@.subrange(0, k as int),
        decreases v@.len() - k,
    {
        out.push(v[k]);
        proof {
            assert(out@ =~= v@.subrange(0, k + 1));
        }
        k = k + 1;
    }
    proof {
        assert(out@ =~= v@);
    }
    out
}

impl HwConfig {
    /// The hardware of a machine that asks for nothing else: 5000 megahertz,
    /// 4 cores, 16 gigabytes of memory and the default disk.
    pub fn default() -> (r: Self)
        ensures
            r.cpu_freq_mhz == 5000,
            r.cpu_cores == 4,
            r.ram_gb == 16,
            r.storage@ == seq![
                Disk { is_main: true, capacity_gb: 1000, tpe: DiskType::SSD, grade: 255 },
            ],
    {
        let mut storage: Vec<Disk> = Vec::new();
        storage.push(Disk::default());
        proof {
            assert(storage@ =~= seq![
                Disk { is_main: true, capacity_gb: 1000, tpe: DiskType::SSD, grade: 255 },
            ]);
        }
        HwConfig { cpu_freq_mhz: 5000, cpu_cores: 4, ram_gb: 16, storage }
    }
}

impl asir::RealHwConfig for HwConfig {
    type disk_type = Disk;

    open spec fn figures(&self) -> (usize, usize, usize) {
        (self.cpu_freq_mhz, self.cpu_cores, self.ram_gb)
    }

    open spec fn disks_spec(&self) -> Seq<Disk> {
        self.storage@
    }

    fn cpu_freq_mhz(&self) -> (r: usize) {
        self.cpu_freq_mhz
    }

    fn cpu_cores(&self) -> (r: usize) {
        self.cpu_cores
    }

    fn ram_gb(&self) -> (r: usize) {
        self.ram_gb
    }

    fn disks(&self) -> (r: Vec<Disk>)
        ensures
            r@ == self.storage@,
    {
        copy_disks(&self.storage)
    }
}

/// How to log in to a machine.
#[derive(Debug)]
pub struct Auth {
    pub user: String,
    pub password: String,
}

/// One machine.
#[derive(Debug)]
pub struct Vm {
    pub name: String,
    pub os: Os,
    pub hwconfig: Option<HwConfig>,
    pub override_config: Option<String>,
    pub config_template: String,
    pub has_remote_access: bool,
    pub role: String,
    pub auth: Auth,
}

impl asir::Vm<Os> for Vm {
    open spec fn name_spec(&self) -> Seq<char> {
        self.name@
    }

    open spec fn os_spec(&self) -> Os {
        self.os
    }

    fn get_name(&self) -> (r: String) {
        self.name.clone()
    }

    fn get_os(&self) -> (r: &Os) {
        &self.os
    }

    fn os_name(&self) -> (r: String) {
        asir::Os::get_name(&self.os)
    }
}

} // verus!
