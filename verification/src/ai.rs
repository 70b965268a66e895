//! Intent engine: maps a natural-language prompt onto an operating-system intent.
use vstd::prelude::*;
use crate::text::{contains_spec, trim_spec, lower_spec, chars_of, to_string, trim_str, lower_chars, has, push_str, push_chars};

verus! {

#[derive(Clone, Debug)]
pub struct ContextNode {
    pub id: u32,
    pub title: &'static str,
    pub category: &'static str,
    pub confidence: u8,
}

pub struct IntentEngine {
    pub query_history: Vec<String>,
    pub memory_nodes: Vec<ContextNode>,
}

pub enum IntentAction {
    ExecuteCommand(&'static str),
    RunWasmSkill(&'static str),
    SyncDisk,
    ChangeTheme,
    PlayChime,
    SystemDiagnostics,
    IdentityCheck,
    ListSkills,
    ShowMemoryGraph,
    DirectResponse(String),
}

pub struct IntentResult {
    pub intent_name: &'static str,
    pub description: String,
    pub action: IntentAction,
    pub confidence: u8,
}

/// Any of the four keywords occurs in `l`.
pub open spec fn any4(l: Seq<char>, a: &str, b: &str, c: &str, d: &str) -> bool {
    contains_spec(l, a@) || contains_spec(l, b@) || contains_spec(l, c@) || contains_spec(l, d@)
}

/// Which rule a lower-cased, trimmed prompt falls under; rules are tried in order and
/// 8 is the fallback.
pub open spec fn intent_rule(l: Seq<char>) -> int {
    if any4(l, "scan", "network", "wifi", "pci") {
        0
    } else if any4(l, "save", "backup", "sync", "persist") {
        1
    } else if contains_spec(l, "skill"@) || contains_spec(l, "wasm"@) || contains_spec(l, "agent"@) {
        2
    } else if any4(l, "memory", "graph", "recall", "context") {
        3
    } else if any4(l, "theme", "color", "dark", "mode") {
        4
    } else if any4(l, "who am i", "user", "identity", "auth") {
        5
    } else if any4(l, "sound", "audio", "chime", "music") {
        6
    } else if contains_spec(l, "status"@) || contains_spec(l, "health"@) || contains_spec(
        l,
        "system"@,
    ) {
        7
    } else {
        8
    }
}

pub open spec fn intent_name_of(k: int) -> &'static str {
    if k == 0 {
        "NETWORK_HARDWARE_SCAN"
    } else if k == 1 {
        "VFS_DISK_PERSISTENCE"
    } else if k == 2 {
        "WASM_SKILL_INVOCATION"
    } else if k == 3 {
        "CONTEXT_VECTOR_RECALL"
    } else if k == 4 {
        "THEME_MODULATION"
    } else if k == 5 {
        "BIOMETRIC_IDENTITY_CHECK"
    } else if k == 6 {
        "AUDIO_SYNTHESIZER"
    } else if k == 7 {
        "SYSTEM_DIAGNOSTICS"
    } else {
        "AUTONOMOUS_AI_INTENT"
    }
}

pub open spec fn confidence_of(k: int) -> u8 {
    if k == 0 {
        96
    } else if k == 1 {
        98
    } else if k == 2 {
        94
    } else if k == 3 {
        97
    } else if k == 4 {
        95
    } else if k == 5 {
        99
    } else if k == 6 {
        98
    } else if k == 7 {
        97
    } else {
        90
    }
}

/// Fixed description of the rules 0..=7.
pub open spec fn description_of(k: int) -> Seq<char> {
    if k == 0 {
        "Scanning PCI bus and probing VirtIO-Net adapters..."@
    } else if k == 1 {
        "Synchronizing all files and directory trees to ATA hard disk..."@
    } else if k == 2 {
        "Dispatching sandboxed WebAssembly execution to /apps/quantum_skill.wasm..."@
    } else if k == 3 {
        "Querying kernel context vector graph for active user knowledge nodes..."@
    } else if k == 4 {
        "Modulating desktop holographic spectrum theme..."@
    } else if k == 5 {
        "Authorized User: Atul | Clearance: AXON-7 Sovereign Administrator"@
    } else if k == 6 {
        "Triggering PIT Channel 2 cyber harmonic audio chime..."@
    } else {
        "All subsystems (Memory, Voice, Vision, Skills, Security) are ONLINE."@
    }
}

/// The result that the rule `k` gives for the trimmed prompt `t`.
pub open spec fn intent_matches(r: IntentResult, k: int, t: Seq<char>) -> bool {
    &&& r.intent_name == intent_name_of(k)
    &&& r.confidence == confidence_of(k)
    &&& k < 8 ==> r.description@ == description_of(k)
    &&& k == 8 ==> r.description@ == "Atulya AI: Processing intent '"@ + t
        + "' across kernel subsystems."@
    &&& match r.action {
        IntentAction::ExecuteCommand(c) => k == 0 && c == "pci",
        IntentAction::SyncDisk => k == 1,
        IntentAction::RunWasmSkill(p) => k == 2 && p == "/apps/quantum_skill.wasm",
        IntentAction::ShowMemoryGraph => k == 3,
        IntentAction::ChangeTheme => k == 4,
        IntentAction::IdentityCheck => k == 5,
        IntentAction::PlayChime => k == 6,
        IntentAction::SystemDiagnostics => k == 7,
        IntentAction::DirectResponse(s) => k == 8 && s@ == "Intent registered: '"@ + t
            + "'. Ready for dispatch."@,
        IntentAction::ListSkills => false,
    }
}

fn has_any4(l: &[char], a: &str, b: &str, c: &str, d: &str) -> (r: bool)
    ensures
        r == any4(l@, a, b, c, d),
{
    has(l, a) || has(l, b) || has(l, c) || has(l, d)
}

/// Computes `intent_rule` of a lower-cased prompt.
pub(crate) fn classify(l: &[char]) -> (k: u8)
    ensures
        k as int == intent_rule(l@),
{
    if has_any4(l, "scan", "network", "wifi", "pci") {
        0
    } else if has_any4(l, "save", "backup", "sync", "persist") {
        1
    } else if has(l, "skill") || has(l, "wasm") || has(l, "agent") {
        2
    } else if has_any4(l, "memory", "graph", "recall", "context") {
        3
    } else if has_any4(l, "theme", "color", "dark", "mode") {
        4
    } else if has_any4(l, "who am i", "user", "identity", "auth") {
        5
    } else if has_any4(l, "sound", "audio", "chime", "music") {
        6
    } else if has(l, "status") || has(l, "health") || has(l, "system") {
        7
    } else {
        8
    }
}

fn text_string(s: &str) -> (r: String)
    ensures
        r@ == s@,
{
    let v = chars_of(s);
    to_string(v.as_slice())
}

/// Node `i` of the initial context graph: (id, title, category, confidence).
pub open spec fn initial_node(i: int) -> (u32, &'static str, &'static str, u8) {
    if i == 0 {
        (1, "User: Atul (Admin Clearance AXON-7)", "Identity", 99)
    } else if i == 1 {
        (2, "Workspace: Quantum Multi-Layer OS", "System", 96)
    } else if i == 2 {
        (3, "Storage: ATA Primary IDE Persistent Block", "Hardware", 95)
    } else if i == 3 {
        (4, "Network: VirtIO-Net Mesh Routing", "Mesh", 92)
    } else {
        (5, "AI Core: Neural Voice & Vision Streams", "Subsystem", 98)
    }
}

impl IntentEngine {
    pub fn new() -> (r: Self)
        ensures
            r.query_history@.len() == 0,
            r.memory_nodes@.len() == 5,
            forall|i: int|
                0 <= i < 5 ==> {
                    let n = #[trigger] r.memory_nodes@[i];
                    (n.id, n.title, n.category, n.confidence) == initial_node(i)
                },
    {
        let mut memory_nodes: Vec<ContextNode> = Vec::new();
        memory_nodes.push(ContextNode { id: 1, title: "User: Atul (Admin Clearance AXON-7)", category: "Identity", confidence: 99 });
        memory_nodes.push(ContextNode { id: 2, title: "Workspace: Quantum Multi-Layer OS", category: "System", confidence: 96 });
        memory_nodes.push(ContextNode { id: 3, title: "Storage: ATA Primary IDE Persistent Block", category: "Hardware", confidence: 95 });
        memory_nodes.push(ContextNode { id: 4, title: "Network: VirtIO-Net Mesh Routing", category: "Mesh", confidence: 92 });
        memory_nodes.push(ContextNode { id: 5, title: "AI Core: Neural Voice & Vision Streams", category: "Subsystem", confidence: 98 });
        Self { query_history: Vec::new(), memory_nodes }
    }

    /// Parse a natural-language prompt into an intent. The trimmed prompt is appended to the
    /// history; the keywords are matched against its ASCII lower-case form.
    pub fn parse_intent(&mut self, prompt: &str) -> (r: IntentResult)
        ensures
            final(self).query_history@.len() == old(self).query_history@.len() + 1,
            final(self).query_history@.last()@ == trim_spec(prompt@),
            forall|i: int|
                0 <= i < old(self).query_history@.len() ==> final(self).query_history@[i]
                    == old(self).query_history@[i],
            final(self).memory_nodes@ == old(self).memory_nodes@,
            intent_matches(
                r,
                intent_rule(lower_spec(trim_spec(prompt@))),
                trim_spec(prompt@),
            ),
    {
        let t = trim_str(prompt);
        self.query_history.push(to_string(t.as_slice()));
        let lower = lower_chars(t.as_slice());
        let k = classify(lower.as_slice());
        if k == 0 {
            IntentResult {
                intent_name: "NETWORK_HARDWARE_SCAN",
                description: text_string("Scanning PCI bus and probing VirtIO-Net adapters..."),
                action: IntentAction::ExecuteCommand("pci"),
                confidence: 96,
            }
        } else if k == 1 {
            IntentResult {
                intent_name: "VFS_DISK_PERSISTENCE",
                description: text_string("Synchronizing all files and directory trees to ATA hard disk..."),
                action: IntentAction::SyncDisk,
                confidence: 98,
            }
        } else if k == 2 {
            IntentResult {
                intent_name: "WASM_SKILL_INVOCATION",
                description: text_string("Dispatching sandboxed WebAssembly execution to /apps/quantum_skill.wasm..."),
                action: IntentAction::RunWasmSkill("/apps/quantum_skill.wasm"),
                confidence: 94,
            }
        } else if k == 3 {
            IntentResult {
                intent_name: "CONTEXT_VECTOR_RECALL",
                description: text_string("Querying kernel context vector graph for active user knowledge nodes..."),
                action: IntentAction::ShowMemoryGraph,
                confidence: 97,
            }
        } else if k == 4 {
            IntentResult {
                intent_name: "THEME_MODULATION",
                description: text_string("Modulating desktop holographic spectrum theme..."),
                action: IntentAction::ChangeTheme,
                confidence: 95,
            }
        } else if k == 5 {
            IntentResult {
                intent_name: "BIOMETRIC_IDENTITY_CHECK",
                description: text_string("Authorized User: Atul | Clearance: AXON-7 Sovereign Administrator"),
                action: IntentAction::IdentityCheck,
                confidence: 99,
            }
        } else if k == 6 {
            IntentResult {
                intent_name: "AUDIO_SYNTHESIZER",
                description: text_string("Triggering PIT Channel 2 cyber harmonic audio chime..."),
                action: IntentAction::PlayChime,
                confidence: 98,
            }
        } else if k == 7 {
            IntentResult {
                intent_name: "SYSTEM_DIAGNOSTICS",
                description: text_string("All subsystems (Memory, Voice, Vision, Skills, Security) are ONLINE."),
                action: IntentAction::SystemDiagnostics,
                confidence: 97,
            }
        } else {
            let mut d: Vec<char> = Vec::new();
            push_str(&mut d, "Atulya AI: Processing intent '");
            push_chars(&mut d, t.as_slice());
            push_str(&mut d, "' across kernel subsystems.");
            let mut a: Vec<char> = Vec::new();
            push_str(&mut a, "Intent registered: '");
            push_chars(&mut a, t.as_slice());
            push_str(&mut a, "'. Ready for dispatch.");
            IntentResult {
                intent_name: "AUTONOMOUS_AI_INTENT",
                description: to_string(d.as_slice()),
                action: IntentAction::DirectResponse(to_string(a.as_slice())),
                confidence: 90,
            }
        }
    }
}

} // verus!
