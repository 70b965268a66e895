//! Power control: the port writes that switch the machine off or reset it.
use vstd::prelude::*;

verus! {

/// Shutdown and reboot of the machine.
pub struct PowerManager;

impl PowerManager {
    /// The 16-bit port writes that power the machine off, in order: the QEMU/Bochs ACPI
    /// poweroff ports 0x604, 0xB004 and 0x4004.
    pub fn shutdown() -> (writes: Vec<(u16, u16)>)
        ensures
            writes@ == seq![(0x604u16, 0x2000u16), (0xB004u16, 0x2000u16), (0x4004u16, 0x3400u16)],
    {
        let mut w: Vec<(u16, u16)> = Vec::new();
        w.push((0x604, 0x2000));
        w.push((0xB004, 0x2000));
        w.push((0x4004, 0x3400));
        assert(w@ =~= seq![(0x604u16, 0x2000u16), (0xB004u16, 0x2000u16), (0x4004u16, 0x3400u16)]);
        w
    }

    /// The byte write that pulses the CPU reset line through the keyboard controller.
    pub fn reboot() -> (write: (u16, u8))
        ensures
            write == (0x64u16, 0xFEu8),
    {
        (0x64, 0xFE)
    }
}

} // verus!
