//! Signature and heuristic malware checks.
use vstd::prelude::*;
use crate::text::{chars_of, to_string};

verus! {

#[derive(Clone, Debug)]
pub struct ThreatReport {
    pub file_path: String,
    pub threat_name: &'static str,
    pub severity: &'static str,
    pub status: &'static str,
}

pub struct AntivirusEngine {
    pub is_realtime_active: bool,
    pub total_scanned_files: usize,
    pub threats_neutralized: usize,
    pub signature_database_version: &'static str,
    pub quarantine: Vec<ThreatReport>,
}

/// A control-register move (`0x0F 0x22` or `0x0F 0x20`) starts at position `i`.
pub open spec fn cr_access_at(d: Seq<u8>, i: int) -> bool {
    d[i] == 0x0F && (d[i + 1] == 0x22 || d[i + 1] == 0x20)
}

fn string_of(s: &str) -> (r: String)
    ensures
        r@ == s@,
{
    let v = chars_of(s);
    to_string(v.as_slice())
}

impl AntivirusEngine {
    pub fn new() -> (r: Self)
        ensures
            r.is_realtime_active,
            r.total_scanned_files == 48,
            r.threats_neutralized == 0,
            r.signature_database_version == "2026.08-Sovereign-Core",
            r.quarantine@.len() == 0,
    {
        Self {
            is_realtime_active: true,
            total_scanned_files: 48,
            threats_neutralized: 0,
            signature_database_version: "2026.08-Sovereign-Core",
            quarantine: Vec::new(),
        }
    }

    /// Scans the file system: counts twelve more files and reports the three system files clean.
    pub fn scan_filesystem(&mut self) -> (r: Vec<ThreatReport>)
        requires
            old(self).total_scanned_files + 12 <= usize::MAX,
        ensures
            final(self).total_scanned_files == old(self).total_scanned_files + 12,
            final(self).is_realtime_active == old(self).is_realtime_active,
            final(self).threats_neutralized == old(self).threats_neutralized,
            final(self).quarantine@ == old(self).quarantine@,
            r@.len() == 3,
            r@[0].file_path@ == "/system/kernel.elf"@ && r@[0].threat_name
                == "CLEAN (Kernel Authenticity Signed)" && r@[0].severity == "NONE" && r@[0].status
                == "VERIFIED",
            r@[1].file_path@ == "/apps/quantum_skill.wasm"@ && r@[1].threat_name
                == "CLEAN (Sandboxed Ring 3 Stack-Machine)" && r@[1].severity == "NONE"
                && r@[1].status == "SECURE",
            r@[2].file_path@ == "/user/atul/identity.json"@ && r@[2].threat_name
                == "CLEAN (ChaCha20 Encrypted Container)" && r@[2].severity == "NONE"
                && r@[2].status == "SEALED",
    {
        self.total_scanned_files += 12;
        let mut reports: Vec<ThreatReport> = Vec::new();
        reports.push(ThreatReport {
            file_path: string_of("/system/kernel.elf"),
            threat_name: "CLEAN (Kernel Authenticity Signed)",
            severity: "NONE",
            status: "VERIFIED",
        });
        reports.push(ThreatReport {
            file_path: string_of("/apps/quantum_skill.wasm"),
            threat_name: "CLEAN (Sandboxed Ring 3 Stack-Machine)",
            severity: "NONE",
            status: "SECURE",
        });
        reports.push(ThreatReport {
            file_path: string_of("/user/atul/identity.json"),
            threat_name: "CLEAN (ChaCha20 Encrypted Container)",
            severity: "NONE",
            status: "SEALED",
        });
        reports
    }

    /// Rejects a binary with a control-register move starting before its last two bytes.
    pub fn inspect_binary_heuristics(&self, data: &[u8]) -> (r: Result<&'static str, &'static str>)
        ensures
            (exists|i: int| 0 <= i < data@.len() - 2 && cr_access_at(data@, i)) ==> r == Err::<
                &'static str,
                &'static str,
            >("Malware Blocked: Unauthorized Control Register access attempted."),
            !(exists|i: int| 0 <= i < data@.len() - 2 && cr_access_at(data@, i)) ==> r == Ok::<
                &'static str,
                &'static str,
            >("Binary Verification Passed: Safe for Ring 3 sandbox execution."),
    {
        let n = if data.len() >= 2 { data.len() - 2 } else { 0 };
        let mut i: usize = 0;
        while i < n
            invariant
                n == if data@.len() >= 2 { data@.len() - 2 } else { 0 },
                i <= n,
                forall|j: int| 0 <= j < i ==> !cr_access_at(data@, j),
            decreases n - i,
        {
            if data[i] == 0x0F && (data[i + 1] == 0x22 || data[i + 1] == 0x20) {
                assert(cr_access_at(data@, i as int));
                return Err("Malware Blocked: Unauthorized Control Register access attempted.");
            }
            i += 1;
        }
        Ok("Binary Verification Passed: Safe for Ring 3 sandbox execution.")
    }
}

} // verus!
