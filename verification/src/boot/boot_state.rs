use vstd::prelude::*;

verus! {

/// The stages of the boot sequence, in the order in which they come.
#[derive(Clone, Copy, PartialEq, Eq, Structural, Debug)]
pub enum BootStage {
    PowerOn,
    CoreFormation,
    CoreOnline,
    MemoryOnline,
    VoiceOnline,
    VisionOnline,
    SkillsOnline,
    KnowledgeGraph,
    IdentityRestore,
    WorkspaceReady,
}

} // verus!
