//! The position-keyed byte cipher that obfuscates packed entries.
use vstd::prelude::*;

verus! {

/// Direction in which the cipher transforms bytes.
#[derive(Debug, Clone, Copy, PartialEq, Eq, Structural)]
pub enum CipherMode {
    /// Bytes pass through unchanged.
    Stored,
    /// Obfuscates: adds the key byte of each position.
    Forward,
    /// Removes obfuscation: subtracts the key byte of each position.
    Inverse,
}

/// The key byte for entry offset `off`: the keystream repeats; an empty one is all zero.
pub open spec fn key_at(ks: Seq<u8>, off: int) -> u8 {
    if ks.len() == 0 {
        0
    } else {
        ks[off % (ks.len() as int)]
    }
}

/// One byte through the cipher.
pub open spec fn transform_byte(mode: CipherMode, b: u8, k: u8) -> u8 {
    match mode {
        CipherMode::Stored => b,
        CipherMode::Forward => ((b + k) % 256) as u8,
        CipherMode::Inverse => ((b + 256 - k) % 256) as u8,
    }
}

/// `data`, whose first byte sits at entry offset `start`, through the cipher.
pub open spec fn transform(ks: Seq<u8>, mode: CipherMode, start: int, data: Seq<u8>) -> Seq<u8> {
    Seq::new(data.len(), |i: int| transform_byte(mode, data[i], key_at(ks, start + i)))
}

/// The byte cipher: a keystream shared with the archive format, and a mode.
pub struct IpfCrypto {
    keystream: Vec<u8>,
    mode: CipherMode,
}

impl IpfCrypto {
    /// The keystream.
    pub closed spec fn keys(&self) -> Seq<u8> {
        self.keystream@
    }

    /// The current mode.
    pub closed spec fn spec_mode(&self) -> CipherMode {
        self.mode
    }

    /// A cipher over `keystream` in inverse mode, which removes obfuscation.
    pub fn new(keystream: Vec<u8>) -> (r: IpfCrypto)
        ensures
            r.keys() == keystream@,
            r.spec_mode() == CipherMode::Inverse,
    {
        IpfCrypto { keystream, mode: CipherMode::Inverse }
    }

    /// The current mode.
    pub fn mode(&self) -> (r: CipherMode)
        ensures
            r == self.spec_mode(),
    {
        self.mode
    }

    /// Switches to obfuscating.
    pub fn encrypt(&mut self)
        ensures
            final(self).keys() == old(self).keys(),
            final(self).spec_mode() == CipherMode::Forward,
    {
        self.mode = CipherMode::Forward;
    }

    /// Switches to removing obfuscation.
    pub fn decrypt(&mut self)
        ensures
            final(self).keys() == old(self).keys(),
            final(self).spec_mode() == CipherMode::Inverse,
    {
        self.mode = CipherMode::Inverse;
    }

    /// Switches to passing bytes through.
    pub fn stored(&mut self)
        ensures
            final(self).keys() == old(self).keys(),
            final(self).spec_mode() == CipherMode::Stored,
    {
        self.mode = CipherMode::Stored;
    }

    /// Runs `data`, whose first byte sits at entry offset `offset`, through the cipher.
    pub fn apply(&self, offset: usize, data: &[u8]) -> (r: Vec<u8>)
        ensures
            r@ == transform(self.keys(), self.spec_mode(), offset as int, data@),
    {
        let n = self.keystream.len();
        let mut out: Vec<u8> = Vec::with_capacity(data.len());
        let mut idx: usize = if n == 0 {
            0
        } else {
            offset % n
        };
        let mut i: usize = 0;
        while i < data.len()
            invariant
                n == self.keys().len(),
                i <= data@.len(),
                n > 0 ==> idx == (offset + i) % (n as int) && idx < n,
                out@ == transform(self.keys(), self.spec_mode(), offset as int, data@.take(i as int)),
            decreases data@.len() - i,
        {
            let k: u8 = if n == 0 {
                0
            } else {
                self.keystream[idx]
            };
            let b = data[i];
            let t: u8 = match self.mode {
                CipherMode::Stored => b,
                CipherMode::Forward => ((b as u16 + k as u16) % 256) as u8,
                CipherMode::Inverse => ((b as u16 + 256 - k as u16) % 256) as u8,
            };
            out.push(t);
            proof {
                if n > 0 {
                    lemma_next_index(offset + i, n as int, idx as int);
                }
            }
            if n > 0 {
                idx = if idx + 1 == n {
                    0
                } else {
                    idx + 1
                };
            }
            i = i + 1;
            assert(out@ =~= transform(
                self.keys(),
                self.spec_mode(),
                offset as int,
                data@.take(i as int),
            ));
        }
        assert(data@.take(i as int) =~= data@);
        out
    }
}

/// Stepping the position by one steps the keystream index by one, wrapping at its end.
proof fn lemma_next_index(x: int, n: int, idx: int)
    requires
        x >= 0,
        n > 0,
        idx == x % n,
    ensures
        (x + 1) % n == if idx + 1 == n {
            0
        } else {
            idx + 1
        },
{
    vstd::arithmetic::div_mod::lemma_add_mod_noop(x, 1, n);
    vstd::arithmetic::div_mod::lemma_mod_bound(x, n);
    if n == 1 {
        vstd::arithmetic::div_mod::lemma_mod_self_0(n);
        vstd::arithmetic::div_mod::lemma_small_mod(0, 1);
    } else {
        vstd::arithmetic::div_mod::lemma_small_mod(1, n as nat);
        if idx + 1 < n {
            vstd::arithmetic::div_mod::lemma_small_mod((idx + 1) as nat, n as nat);
        } else {
            vstd::arithmetic::div_mod::lemma_mod_self_0(n);
        }
    }
}

/// The forward and inverse modes undo each other at matching offsets, and stored mode
/// changes nothing.
pub proof fn lemma_modes_inverse(ks: Seq<u8>, start: int, data: Seq<u8>)
    ensures
        transform(ks, CipherMode::Forward, start, transform(ks, CipherMode::Inverse, start, data))
            == data,
        transform(ks, CipherMode::Inverse, start, transform(ks, CipherMode::Forward, start, data))
            == data,
        transform(ks, CipherMode::Stored, start, data) == data,
{
    assert(transform(ks, CipherMode::Forward, start, transform(ks, CipherMode::Inverse, start, data))
        =~= data);
    assert(transform(ks, CipherMode::Inverse, start, transform(ks, CipherMode::Forward, start, data))
        =~= data);
    assert(transform(ks, CipherMode::Stored, start, data) =~= data);
}

} // verus!
