use std::collections::VecDeque;
use vstd::prelude::*;

verus! {

/// A network interface: its identity, its state, and frame transfer.
pub trait NetworkInterface {
    fn name(&self) -> &str;

    fn mac_address(&self) -> [u8; 6];

    fn ip_address(&self) -> [u8; 4];

    fn send(&mut self, data: &[u8]) -> Result<(), &'static str>;

    fn receive(&mut self) -> Option<Vec<u8>>;

    fn is_up(&self) -> bool;
}

/// A VirtIO network device behind an MMIO window.
pub struct VirtIONet {
    name: String,
    mac: [u8; 6],
    ip: [u8; 4],
    rx_buf: VecDeque<Vec<u8>>,
    tx_buf: VecDeque<Vec<u8>>,
    mmio_base: u64,
    initialized: bool,
}

impl VirtIONet {
    pub closed spec fn name_view(&self) -> Seq<char> {
        self.name@
    }

    pub closed spec fn mac_view(&self) -> Seq<u8> {
        self.mac@
    }

    pub closed spec fn ip_view(&self) -> Seq<u8> {
        self.ip@
    }

    /// Frames received and not yet taken, oldest first.
    pub closed spec fn rx_view(&self) -> Seq<Seq<u8>> {
        self.rx_buf@.map_values(|p: Vec<u8>| p@)
    }

    /// Frames handed to the device for sending, oldest first.
    pub closed spec fn tx_view(&self) -> Seq<Seq<u8>> {
        self.tx_buf@.map_values(|p: Vec<u8>| p@)
    }

    pub closed spec fn mmio_view(&self) -> u64 {
        self.mmio_base
    }

    pub closed spec fn up_view(&self) -> bool {
        self.initialized
    }

    pub fn new(name: &str, mmio_base: u64) -> (r: Self)
        ensures
            r.name_view() == name@,
            r.mac_view() == seq![0x52u8, 0x54u8, 0x00u8, 0x12u8, 0x34u8, 0x56u8],
            r.ip_view() == seq![0u8, 0u8, 0u8, 0u8],
            r.rx_view() == Seq::<Seq<u8>>::empty(),
            r.tx_view() == Seq::<Seq<u8>>::empty(),
            r.mmio_view() == mmio_base,
            !r.up_view(),
    {
        let r = Self {
            name: name.to_owned(),
            mac: [0x52, 0x54, 0x00, 0x12, 0x34, 0x56],
            ip: [0, 0, 0, 0],
            rx_buf: VecDeque::new(),
            tx_buf: VecDeque::new(),
            mmio_base,
            initialized: false,
        };
        assert(r.mac_view() =~= seq![0x52u8, 0x54u8, 0x00u8, 0x12u8, 0x34u8, 0x56u8]);
        assert(r.ip_view() =~= seq![0u8, 0u8, 0u8, 0u8]);
        assert(r.rx_view() =~= Seq::<Seq<u8>>::empty());
        assert(r.tx_view() =~= Seq::<Seq<u8>>::empty());
        r
    }

    /// Brings the device up; it needs an MMIO window.
    pub fn init(&mut self) -> (r: Result<(), &'static str>)
        ensures
            old(self).mmio_view() == 0 ==> r == Err::<(), &'static str>(
                "No MMIO base address configured",
            ) && *final(self) == *old(self),
            old(self).mmio_view() != 0 ==> r is Ok && final(self).up_view() && final(self).tx_view() == old(self).tx_view() && final(self).rx_view() == old(self).rx_view()
                && final(self).ip_view() == old(self).ip_view() && final(self).mmio_view() == old(self).mmio_view()
                && final(self).mac_view() == old(self).mac_view() && final(self).name_view() == old(self).name_view(),
    {
        if self.mmio_base == 0 {
            return Err("No MMIO base address configured");
        }
        self.initialized = true;
        Ok(())
    }

    pub fn set_ip(&mut self, a: u8, b: u8, c: u8, d: u8)
        ensures
            final(self).ip_view() == seq![a, b, c, d],
            final(self).up_view() == old(self).up_view(),
            final(self).tx_view() == old(self).tx_view(),
            final(self).rx_view() == old(self).rx_view(),
            final(self).mac_view() == old(self).mac_view(),
    {
        self.ip = [a, b, c, d];
        assert(self.ip_view() =~= seq![a, b, c, d]);
    }
}

impl NetworkInterface for VirtIONet {
    fn name(&self) -> (r: &str)
        ensures
            r@ == self.name_view(),
    {
        self.name.as_str()
    }

    fn mac_address(&self) -> (r: [u8; 6])
        ensures
            r@ == self.mac_view(),
    {
        self.mac
    }

    fn ip_address(&self) -> (r: [u8; 4])
        ensures
            r@ == self.ip_view(),
    {
        self.ip
    }

    /// Queues a copy of `data` for sending; the device must be up.
    fn send(&mut self, data: &[u8]) -> (r: Result<(), &'static str>)
        ensures
            !old(self).up_view() ==> r == Err::<(), &'static str>("NIC not initialized")
                && *final(self) == *old(self),
            old(self).up_view() ==> r is Ok && final(self).tx_view() == old(self).tx_view().push(
                data@,
            ) && final(self).rx_view() == old(self).rx_view() && final(self).up_view(),
    {
        if !self.initialized {
            return Err("NIC not initialized");
        }
        self.tx_buf.push_back(vstd::slice::slice_to_vec(data));
        assert(self.tx_view() =~= old(self).tx_view().push(data@));
        Ok(())
    }

    /// Takes the oldest received frame, if any.
    fn receive(&mut self) -> (r: Option<Vec<u8>>)
        ensures
            old(self).rx_view().len() == 0 ==> r.is_none() && final(self).rx_view() == old(self).rx_view(),
            old(self).rx_view().len() > 0 ==> (r matches Some(p) && p@ == old(self).rx_view()[0]
                && final(self).rx_view() == old(self).rx_view().drop_first()),
            final(self).tx_view() == old(self).tx_view(),
            final(self).up_view() == old(self).up_view(),
    {
        let r = self.rx_buf.pop_front();
        assert(self.rx_view() =~= if old(self).rx_view().len() == 0 {
            old(self).rx_view()
        } else {
            old(self).rx_view().drop_first()
        });
        r
    }

    fn is_up(&self) -> (r: bool)
        ensures
            r == self.up_view(),
    {
        self.initialized
    }
}

} // verus!
