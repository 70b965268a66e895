use vstd::prelude::*;

verus! {

pub const PCI_CONFIG_ADDRESS: u16 = 0xcf8;

pub const PCI_CONFIG_DATA: u16 = 0xcfc;

/// A function found on the PCI bus, with the identifying fields of its configuration space.
#[derive(Clone, Copy, Debug)]
pub struct PciDevice {
    pub bus: u8,
    pub device: u8,
    pub function: u8,
    pub vendor_id: u16,
    pub device_id: u16,
    pub class_id: u8,
    pub subclass_id: u8,
    pub bar0: u32,
    pub irq: u8,
}

/// The name of a known vendor/device pair, else of the device's class.
pub open spec fn description_spec(vendor: u16, device: u16, class: u8) -> &'static str {
    if vendor == 0x1234 && device == 0x1111 {
        "QEMU Standard VGA Graphics Controller"
    } else if vendor == 0x1af4 && device == 0x1000 {
        "VirtIO Network Interface Card (Legacy)"
    } else if vendor == 0x1af4 && device == 0x1041 {
        "VirtIO Network Interface Card (Modern)"
    } else if vendor == 0x1af4 && device == 0x1050 {
        "VirtIO 3D GPU Accelerated Display"
    } else if vendor == 0x8086 && device == 0x1237 {
        "Intel 440FX PCI Host Bridge"
    } else if vendor == 0x8086 && device == 0x7000 {
        "Intel PIIX3 PCI-to-ISA Bridge"
    } else if vendor == 0x8086 && device == 0x7010 {
        "Intel PIIX3 IDE Controller"
    } else if vendor == 0x8086 && device == 0x7113 {
        "Intel PIIX4 ACPI Power Controller"
    } else if vendor == 0x8086 && device == 0x100e {
        "Intel e1000 Gigabit Ethernet"
    } else if class == 0x01 {
        "Mass Storage Controller"
    } else if class == 0x02 {
        "Network Controller"
    } else if class == 0x03 {
        "Display Controller"
    } else if class == 0x04 {
        "Multimedia Audio Device"
    } else if class == 0x06 {
        "Bridge Device"
    } else {
        "Generic PCI Device"
    }
}

/// A VirtIO network card, legacy or modern.
pub open spec fn is_virtio_net(d: PciDevice) -> bool {
    d.vendor_id == 0x1af4 && (d.device_id == 0x1000 || d.device_id == 0x1041)
}

impl PciDevice {
    pub fn description(&self) -> (r: &'static str)
        ensures
            r == description_spec(self.vendor_id, self.device_id, self.class_id),
    {
        let v = self.vendor_id;
        let d = self.device_id;
        if v == 0x1234 && d == 0x1111 {
            "QEMU Standard VGA Graphics Controller"
        } else if v == 0x1af4 && d == 0x1000 {
            "VirtIO Network Interface Card (Legacy)"
        } else if v == 0x1af4 && d == 0x1041 {
            "VirtIO Network Interface Card (Modern)"
        } else if v == 0x1af4 && d == 0x1050 {
            "VirtIO 3D GPU Accelerated Display"
        } else if v == 0x8086 && d == 0x1237 {
            "Intel 440FX PCI Host Bridge"
        } else if v == 0x8086 && d == 0x7000 {
            "Intel PIIX3 PCI-to-ISA Bridge"
        } else if v == 0x8086 && d == 0x7010 {
            "Intel PIIX3 IDE Controller"
        } else if v == 0x8086 && d == 0x7113 {
            "Intel PIIX4 ACPI Power Controller"
        } else if v == 0x8086 && d == 0x100e {
            "Intel e1000 Gigabit Ethernet"
        } else if self.class_id == 0x01 {
            "Mass Storage Controller"
        } else if self.class_id == 0x02 {
            "Network Controller"
        } else if self.class_id == 0x03 {
            "Display Controller"
        } else if self.class_id == 0x04 {
            "Multimedia Audio Device"
        } else if self.class_id == 0x06 {
            "Bridge Device"
        } else {
            "Generic PCI Device"
        }
    }
}

/// The bus scanner. Reading configuration space is port I/O and lives with the caller;
/// the address and field arithmetic is here.
pub struct PciBus;

impl PciBus {
    /// The configuration-space address of a dword: enable bit, bus, slot, function, and the
    /// offset rounded down to four, packed by shifts and bitwise or.
    pub fn config_address(bus: u8, slot: u8, func: u8, offset: u8) -> (r: u32)
        ensures
            r == ((bus as u32) << 16u32) | ((slot as u32) << 11u32) | ((func as u32) << 8u32) | ((
                offset as u32) & 0xfc) | 0x80000000u32,
            slot < 32 && func < 8 ==> r == 0x80000000 + bus * 65536 + slot * 2048 + func * 256 + (
            offset as int / 4) * 4,
    {
        let a = ((bus as u32) << 16) | ((slot as u32) << 11) | ((func as u32) << 8) | ((offset as u32)
            & 0xfc) | 0x80000000;
        let b = bus as u32;
        let s = slot as u32;
        let f = func as u32;
        let o = offset as u32;
        assert(b < 256 && s < 32 && f < 8 && o < 256 ==> (b << 16u32) | (s << 11u32) | (f << 8u32) | (o
            & 0xfc) | 0x80000000u32 == 0x80000000u32 + b * 65536 + s * 2048 + f * 256 + (o / 4) * 4)
            by (bit_vector);
        a
    }

    /// The 16-bit word at `offset` within the dword read from configuration space.
    pub fn config_word(dword: u32, offset: u8) -> (r: u16)
        ensures
            r == if offset & 2 == 0 {
                dword % 65536
            } else {
                dword / 65536
            },
    {
        assert(offset & 2 == 0 || offset & 2 == 2) by (bit_vector);
        let w = ((dword >> (((offset & 2) as u32) * 8)) & 0xffff) as u16;
        if offset & 2 == 0 {
            assert(((dword >> 0u32) & 0xffff) == dword % 65536) by (bit_vector);
        } else {
            assert(((dword >> 16u32) & 0xffff) == dword / 65536) by (bit_vector);
        }
        w
    }

    /// The first VirtIO network card among scanned devices.
    pub fn find_virtio_net(devices: &[PciDevice]) -> (r: Option<PciDevice>)
        ensures
            match r {
                Some(d) => exists|i: int|
                    0 <= i < devices@.len() && devices@[i] == d && is_virtio_net(d) && forall|j: int|
                        0 <= j < i ==> !is_virtio_net(#[trigger] devices@[j]),
                None => forall|j: int| 0 <= j < devices@.len() ==> !is_virtio_net(#[trigger] devices@[j]),
            },
    {
        let mut i: usize = 0;
        while i < devices.len()
            invariant
                i <= devices@.len(),
                forall|j: int| 0 <= j < i ==> !is_virtio_net(#[trigger] devices@[j]),
            decreases devices@.len() - i,
        {
            let d = devices[i];
            if d.vendor_id == 0x1af4 && (d.device_id == 0x1000 || d.device_id == 0x1041) {
                return Some(d);
            }
            i += 1;
        }
        None
    }
}

} // verus!
