//! The arguments of a kernel, as the driver takes them.

use vstd::prelude::*;

verus! {

/// A kernel argument.
pub enum Arg {
    /// A device address.
    Ptr(u64),
    Int(i32),
    Long(u64),
    /// A single-precision number by its bits.
    Single(u32),
}

/// The low four bytes of a slot and zeros.
pub open spec fn slot32(v: u32) -> Seq<u8> {
    seq![
        (v % 256) as u8,
        (v / 256 % 256) as u8,
        (v / 0x1_0000 % 256) as u8,
        (v / 0x100_0000) as u8,
        0u8,
        0u8,
        0u8,
        0u8,
    ]
}

pub open spec fn slot64(v: u64) -> Seq<u8> {
    seq![
        (v % 256) as u8,
        (v / 0x100 % 256) as u8,
        (v / 0x1_0000 % 256) as u8,
        (v / 0x100_0000 % 256) as u8,
        (v / 0x1_0000_0000 % 256) as u8,
        (v / 0x100_0000_0000 % 256) as u8,
        (v / 0x1_0000_0000_0000 % 256) as u8,
        (v / 0x100_0000_0000_0000) as u8,
    ]
}

/// An argument as it lies in memory, and its size.
#[verifier::opaque]
pub open spec fn packed(a: Arg) -> (Seq<u8>, nat) {
    match a {
        Arg::Ptr(p) => (slot64(p), 8),
        Arg::Long(v) => (slot64(v), 8),
        Arg::Int(v) => (slot32(v as u32), 4),
        Arg::Single(v) => (slot32(v), 4),
    }
}

pub open spec fn pack(a: Seq<Arg>) -> Seq<(Seq<u8>, nat)> {
    Seq::new(a.len(), |i: int| packed(a[i]))
}

/// A kernel launch, built argument by argument.
///
/// The driver takes an array of pointers to arguments, so every value has to outlive the launch.
/// Collecting them here keeps that lifetime obvious at the call site.
pub struct Launch {
    pub storage: Vec<[u8; 8]>,
    pub sizes: Vec<usize>,
}

impl View for Launch {
    type V = Seq<(Seq<u8>, nat)>;

    open spec fn view(&self) -> Seq<(Seq<u8>, nat)> {
        Seq::new(self.storage@.len(), |i: int| (self.storage@[i]@, self.sizes@[i] as nat))
    }
}

impl Launch {
    pub open spec fn wf(self) -> bool {
        self.storage@.len() == self.sizes@.len()
    }

    pub fn new() -> (r: Self)
        ensures
            r.wf(),
            r@ == pack(Seq::empty()),
    {
        let r = Launch { storage: Vec::new(), sizes: Vec::new() };
        assert(r@ =~= pack(Seq::empty()));
        r
    }

    fn push_bytes(&mut self, slot: [u8; 8], n: usize)
        requires
            old(self).wf(),
        ensures
            final(self).wf(),
            final(self)@ == old(self)@.push((slot@, n as nat)),
    {
        let ghost before = self@;
        self.storage.push(slot);
        self.sizes.push(n);
        assert(self@ =~= before.push((slot@, n as nat)));
    }

    fn push_long(&mut self, v: u64)
        requires
            old(self).wf(),
        ensures
            final(self).wf(),
            final(self)@ == old(self)@.push((slot64(v), 8)),
    {
        let slot: [u8; 8] = [
            (v % 256) as u8,
            (v / 0x100 % 256) as u8,
            (v / 0x1_0000 % 256) as u8,
            (v / 0x100_0000 % 256) as u8,
            (v / 0x1_0000_0000 % 256) as u8,
            (v / 0x100_0000_0000 % 256) as u8,
            (v / 0x1_0000_0000_0000 % 256) as u8,
            (v / 0x100_0000_0000_0000) as u8,
        ];
        assert(slot@ =~= slot64(v));
        self.push_bytes(slot, 8);
    }

    fn push_word(&mut self, v: u32)
        requires
            old(self).wf(),
        ensures
            final(self).wf(),
            final(self)@ == old(self)@.push((slot32(v), 4)),
    {
        let slot: [u8; 8] = [
            (v % 256) as u8,
            (v / 256 % 256) as u8,
            (v / 0x1_0000 % 256) as u8,
            (v / 0x100_0000) as u8,
            0,
            0,
            0,
            0,
        ];
        assert(slot@ =~= slot32(v));
        self.push_bytes(slot, 4);
    }

    pub fn ptr(self, p: u64) -> (r: Self)
        requires
            self.wf(),
        ensures
            r.wf(),
            r@ == self@.push(packed(Arg::Ptr(p))),
    {
        proof {
            reveal(packed);
        }
        let mut l = self;
        l.push_long(p);
        l
    }

    pub fn i32(self, v: i32) -> (r: Self)
        requires
            self.wf(),
        ensures
            r.wf(),
            r@ == self@.push(packed(Arg::Int(v))),
    {
        proof {
            reveal(packed);
        }
        let mut l = self;
        l.push_word(v as u32);
        l
    }

    pub fn u64(self, v: u64) -> (r: Self)
        requires
            self.wf(),
        ensures
            r.wf(),
            r@ == self@.push(packed(Arg::Long(v))),
    {
        proof {
            reveal(packed);
        }
        let mut l = self;
        l.push_long(v);
        l
    }

    /// A single-precision number by its bits.
    pub fn single(self, v: u32) -> (r: Self)
        requires
            self.wf(),
        ensures
            r.wf(),
            r@ == self@.push(packed(Arg::Single(v))),
    {
        proof {
            reveal(packed);
        }
        let mut l = self;
        l.push_word(v);
        l
    }
}

/// Arguments keep their order: one that is pushed last lies last, and those before it stay.
pub proof fn arguments_keep_their_order(a: Seq<Arg>, x: Arg)
    ensures
        pack(a.push(x)) == pack(a).push(packed(x)),
{
    assert(pack(a.push(x)) =~= pack(a).push(packed(x)));
}

} // verus!
