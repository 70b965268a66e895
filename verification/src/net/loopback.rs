use std::collections::VecDeque;
use vstd::prelude::*;

verus! {

/// The loopback device: a receive queue, a transmit queue and the address 127.0.0.1.
pub struct LoopbackInterface {
    rx_queue: VecDeque<Vec<u8>>,
    tx_queue: VecDeque<Vec<u8>>,
    ip_addr: [u8; 4],
}

impl LoopbackInterface {
    /// The frames waiting in the receive queue, oldest first.
    pub closed spec fn rx_view(&self) -> Seq<Seq<u8>> {
        self.rx_queue@.map_values(|p: Vec<u8>| p@)
    }

    /// The frames waiting in the transmit queue, oldest first.
    pub closed spec fn tx_view(&self) -> Seq<Seq<u8>> {
        self.tx_queue@.map_values(|p: Vec<u8>| p@)
    }

    /// The interface's IPv4 address.
    pub closed spec fn ip_view(&self) -> Seq<u8> {
        self.ip_addr@
    }

    pub fn new() -> (r: Self)
        ensures
            r.rx_view() == Seq::<Seq<u8>>::empty(),
            r.tx_view() == Seq::<Seq<u8>>::empty(),
            r.ip_view() == seq![127u8, 0u8, 0u8, 1u8],
    {
        let r = Self { rx_queue: VecDeque::new(), tx_queue: VecDeque::new(), ip_addr: [127, 0, 0, 1] };
        assert(r.rx_view() =~= Seq::<Seq<u8>>::empty());
        assert(r.tx_view() =~= Seq::<Seq<u8>>::empty());
        assert(r.ip_view() =~= seq![127u8, 0u8, 0u8, 1u8]);
        r
    }

    /// Queues a copy of `data` for reception.
    pub fn inject_packet(&mut self, data: &[u8])
        ensures
            final(self).rx_view() == old(self).rx_view().push(data@),
            final(self).tx_view() == old(self).tx_view(),
            final(self).ip_view() == old(self).ip_view(),
    {
        self.rx_queue.push_back(vstd::slice::slice_to_vec(data));
        assert(self.rx_view() =~= old(self).rx_view().push(data@));
    }

    /// Takes the oldest frame of the transmit queue, if any.
    pub fn transmitted_packets(&mut self) -> (r: Option<Vec<u8>>)
        ensures
            old(self).tx_view().len() == 0 ==> r.is_none() && final(self).tx_view() == old(self).tx_view(),
            old(self).tx_view().len() > 0 ==> (r matches Some(p) && p@ == old(self).tx_view()[0]
                && final(self).tx_view() == old(self).tx_view().drop_first()),
            final(self).rx_view() == old(self).rx_view(),
            final(self).ip_view() == old(self).ip_view(),
    {
        let r = self.tx_queue.pop_front();
        assert(self.tx_view() =~= if old(self).tx_view().len() == 0 {
            old(self).tx_view()
        } else {
            old(self).tx_view().drop_first()
        });
        r
    }

    pub fn ip_address(&self) -> (r: [u8; 4])
        ensures
            r@ == self.ip_view(),
    {
        self.ip_addr
    }

    /// Sends `data` to this host: it is queued for reception.
    pub fn send_loopback(&mut self, data: &[u8])
        ensures
            final(self).rx_view() == old(self).rx_view().push(data@),
            final(self).tx_view() == old(self).tx_view(),
            final(self).ip_view() == old(self).ip_view(),
    {
        self.rx_queue.push_back(vstd::slice::slice_to_vec(data));
        assert(self.rx_view() =~= old(self).rx_view().push(data@));
    }
}

} // verus!
