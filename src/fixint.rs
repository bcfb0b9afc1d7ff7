//! Fixed-width integer values whose bits live either inline, in one word,
//! or in an owned chain of words.
use vstd::arithmetic::power2::{lemma2_to64, lemma_pow2_pos, pow2};
use vstd::bits::{lemma_u64_pow2_no_overflow, lemma_u64_shl_is_mul};
use vstd::prelude::*;

verus! {

/// Number of bits held by one block.
pub const BITS_PER_BLOCK: usize = 64;

/// Largest bit width whose value is stored inline.
pub const INLINED_BITS: usize = 64;

/// One machine word of a fixed-width integer.
#[derive(Debug, Copy, Clone, PartialEq, Eq, Hash)]
pub struct Block(pub u64);

/// A borrowed run of blocks, least significant block first.
#[derive(Debug, Copy, Clone)]
pub struct BlockChain<'a>(pub &'a [Block]);

/// A mutably borrowed run of blocks, least significant block first.
#[derive(Debug)]
pub struct BlockChainMut<'a>(pub &'a mut [Block]);

/// Read view of a fixed-width integer.
#[derive(Debug, Copy, Clone)]
pub enum FixIntModel<'a> {
    C8(u8),
    C16(u16),
    C32(u32),
    C64(u64),
    Var(BlockChain<'a>),
}

/// Mutable view of a fixed-width integer.
#[derive(Debug)]
pub enum FixIntModelMut<'a> {
    C8(&'a mut u64),
    C16(&'a mut u64),
    C32(&'a mut u64),
    C64(&'a mut u64),
    Var(BlockChainMut<'a>),
}

/// Where the bits of a fixed-width integer are kept.
#[derive(Debug, Copy, Clone, PartialEq, Eq, Hash)]
pub enum Storage {
    /// Indicating on stack and inplace memory usage.
    Inl,
    /// Indicating on heap and external memory usage.
    Ext,
}

/// The physical layout of a fixed-width integer.
#[derive(Debug, Clone)]
pub enum FixIntData {
    Inl([Block; 1]),
    Ext(Vec<Block>),
}

/// A bitvector value of a fixed bit width.
#[derive(Debug, Clone)]
pub struct FixInt {
    bits: u32,
    data: FixIntData,
}

/// The base of one block: `2^64`.
pub open spec fn block_base() -> int {
    0x1_0000_0000_0000_0000int
}

/// The unsigned value of a chain of blocks, least significant block first.
pub open spec fn chain_value(s: Seq<Block>) -> int
    decreases s.len(),
{
    if s.len() == 0 {
        0
    } else {
        s[0].0 as int + block_base() * chain_value(s.drop_first())
    }
}

/// The number of blocks that a value of `bits` bits occupies.
pub open spec fn blocks_for(bits: nat) -> nat {
    ((bits + 63) / 64) as nat
}

/// The layout that a value of `bits` bits gets.
pub open spec fn storage_for(bits: nat) -> Storage {
    if bits <= 64 {
        Storage::Inl
    } else {
        Storage::Ext
    }
}

/// The value of `value` cut down to its lowest `bits` bits.
pub open spec fn truncated(value: u64, bits: nat) -> int {
    if bits >= 64 {
        value as int
    } else {
        value as int % pow2(bits) as int
    }
}

/// The number that a read view stands for.
pub open spec fn model_value(m: FixIntModel) -> int {
    match m {
        FixIntModel::C8(v) => v as int,
        FixIntModel::C16(v) => v as int,
        FixIntModel::C32(v) => v as int,
        FixIntModel::C64(v) => v as int,
        FixIntModel::Var(c) => chain_value(c.0@),
    }
}

impl FixInt {
    /// The declared bit width.
    pub closed spec fn width(&self) -> nat {
        self.bits as nat
    }

    /// The blocks of the value, least significant first.
    pub closed spec fn blocks(&self) -> Seq<Block> {
        match self.data {
            FixIntData::Inl(a) => a@,
            FixIntData::Ext(v) => v@,
        }
    }

    /// The layout in use.
    pub closed spec fn layout(&self) -> Storage {
        match self.data {
            FixIntData::Inl(_) => Storage::Inl,
            FixIntData::Ext(_) => Storage::Ext,
        }
    }

    /// The number that the value stands for.
    pub open spec fn value(&self) -> int {
        chain_value(self.blocks())
    }

    /// The layout is the one the width selects, the chain has the length the
    /// width asks for, and an inline value has no bit above its width.
    pub closed spec fn wf(&self) -> bool {
        &&& self.layout() == storage_for(self.width())
        &&& self.width() > 64 ==> self.blocks().len() == blocks_for(self.width())
        &&& self.width() <= 64 ==> self.blocks().len() == 1
        &&& self.width() < 64 ==> (self.blocks()[0].0 as int) < pow2(self.width()) as int
    }

    /// `m` is the read view that the declared width selects: a native value
    /// for an inline value of 8, 16, 32 or 64 bits, the block chain otherwise.
    pub closed spec fn is_model(&self, m: FixIntModel) -> bool {
        match self.data {
            FixIntData::Inl(a) => if self.bits == 8 {
                m == FixIntModel::C8(a[0].0 as u8)
            } else if self.bits == 16 {
                m == FixIntModel::C16(a[0].0 as u16)
            } else if self.bits == 32 {
                m == FixIntModel::C32(a[0].0 as u32)
            } else if self.bits == 64 {
                m == FixIntModel::C64(a[0].0)
            } else {
                m is Var && m->Var_0.0@ == a@
            },
            FixIntData::Ext(v) => m is Var && m->Var_0.0@ == v@,
        }
    }

    /// Creates a value of `bits` bits from the lowest `bits` bits of `value`.
    ///
    /// The layout is inline up to 64 bits and an owned block chain above.
    pub fn new(bits: u32, value: u64) -> (r: FixInt)
        ensures
            r.wf(),
            r.width() == bits,
            r.layout() == storage_for(bits as nat),
            r.value() == truncated(value, bits as nat),
            bits > 64 ==> r.blocks() == seq![Block(value)] + Seq::new((blocks_for(bits as nat) - 1) as nat, |i: int| Block(0)),
    {
        if bits <= 64 {
            let word: u64 = if bits < 64 {
                proof {
                    lemma_u64_pow2_no_overflow(bits as nat);
                    lemma_u64_shl_is_mul(1, bits as u64);
                    lemma_pow2_pos(bits as nat);
                }
                value % (1u64 << bits as u64)
            } else {
                value
            };
            let r = FixInt { bits, data: FixIntData::Inl([Block(word)]) };
            proof {
                assert(r.blocks() =~= seq![Block(word)]);
                assert(r.blocks().drop_first() =~= Seq::<Block>::empty());
                assert(chain_value(r.blocks().drop_first()) == 0);
            }
            r
        } else {
            let n: u32 = (bits - 1) / 64 + 1;
            let mut v: Vec<Block> = Vec::new();
            v.push(Block(value));
            let mut i: u32 = 1;
            while i < n
                invariant
                    1 <= i <= n,
                    n as nat == blocks_for(bits as nat),
                    v@ == seq![Block(value)] + Seq::new((i - 1) as nat, |k: int| Block(0)),
                decreases n - i,
            {
                v.push(Block(0));
                i = i + 1;
                assert(v@ =~= seq![Block(value)] + Seq::new((i - 1) as nat, |k: int| Block(0)));
            }
            let r = FixInt { bits, data: FixIntData::Ext(v) };
            proof {
                lemma_zero_chain((n - 1) as nat);
                assert(r.blocks().drop_first() =~= Seq::new((n - 1) as nat, |k: int| Block(0)));
            }
            r
        }
    }

    /// The declared bit width.
    pub fn bits(&self) -> (r: u32)
        ensures
            r == self.width(),
    {
        self.bits
    }

    /// The layout in use.
    pub fn storage(&self) -> (r: Storage)
        ensures
            r == self.layout(),
            self.wf() ==> r == storage_for(self.width()),
    {
        match &self.data {
            FixIntData::Inl(_) => Storage::Inl,
            FixIntData::Ext(_) => Storage::Ext,
        }
    }

    /// The read view that the declared width selects.
    pub fn model(&self) -> (r: FixIntModel<'_>)
        ensures
            self.is_model(r),
            r is Var ==> r->Var_0.0@ == self.blocks(),
            self.wf() ==> model_value(r) == self.value(),
            self.wf() ==> ((r is C8) <==> self.width() == 8),
            self.wf() ==> ((r is C16) <==> self.width() == 16),
            self.wf() ==> ((r is C32) <==> self.width() == 32),
            self.wf() ==> ((r is C64) <==> self.width() == 64),
    {
        proof {
            lemma2_to64();
            if self.wf() && self.width() <= 64 {
                let w = self.blocks()[0].0;
                assert(self.blocks().drop_first() =~= Seq::<Block>::empty());
                assert(chain_value(self.blocks().drop_first()) == 0);
                assert(self.value() == w as int);
                if self.width() == 8 {
                    assert((w as u8) as int == w as int);
                } else if self.width() == 16 {
                    assert((w as u16) as int == w as int);
                } else if self.width() == 32 {
                    assert((w as u32) as int == w as int);
                }
            }
        }
        match &self.data {
            FixIntData::Inl(a) => if self.bits == 8 {
                FixIntModel::C8(a[0].0 as u8)
            } else if self.bits == 16 {
                FixIntModel::C16(a[0].0 as u16)
            } else if self.bits == 32 {
                FixIntModel::C32(a[0].0 as u32)
            } else if self.bits == 64 {
                FixIntModel::C64(a[0].0)
            } else {
                FixIntModel::Var(BlockChain(vstd::array::array_as_slice(a)))
            },
            FixIntData::Ext(v) => FixIntModel::Var(BlockChain(v.as_slice())),
        }
    }

    /// The mutable view that the declared width selects: the inline word for
    /// an inline value of 8, 16, 32 or 64 bits, the block chain otherwise.
    pub fn model_mut(&mut self) -> (r: FixIntModelMut<'_>)
        ensures
            (r is C8) == (old(self).layout() == Storage::Inl && old(self).width() == 8),
            (r is C16) == (old(self).layout() == Storage::Inl && old(self).width() == 16),
            (r is C32) == (old(self).layout() == Storage::Inl && old(self).width() == 32),
            (r is C64) == (old(self).layout() == Storage::Inl && old(self).width() == 64),
            r is Var ==> r->Var_0.0@ == old(self).blocks(),
            final(self).width() == old(self).width(),
            final(self).layout() == old(self).layout(),
            r is C8 ==> final(self).blocks() == seq![Block(*final(r->C8_0))],
            r is C16 ==> final(self).blocks() == seq![Block(*final(r->C16_0))],
            r is C32 ==> final(self).blocks() == seq![Block(*final(r->C32_0))],
            r is C64 ==> final(self).blocks() == seq![Block(*final(r->C64_0))],
            r is Var ==> final(self).blocks() == final(r->Var_0.0)@,
    {
        let bits = self.bits;
        match &mut self.data {
            FixIntData::Inl(a) => if bits == 8 {
                FixIntModelMut::C8(&mut a[0].0)
            } else if bits == 16 {
                FixIntModelMut::C16(&mut a[0].0)
            } else if bits == 32 {
                FixIntModelMut::C32(&mut a[0].0)
            } else if bits == 64 {
                FixIntModelMut::C64(&mut a[0].0)
            } else {
                FixIntModelMut::Var(BlockChainMut(a))
            },
            FixIntData::Ext(v) => FixIntModelMut::Var(BlockChainMut(v.as_mut_slice())),
        }
    }

    /// The generic view: the blocks of the value whatever its layout.
    pub fn chain(&self) -> (r: BlockChain<'_>)
        ensures
            r.0@ == self.blocks(),
    {
        match &self.data {
            FixIntData::Inl(a) => BlockChain(vstd::array::array_as_slice(a)),
            FixIntData::Ext(v) => BlockChain(v.as_slice()),
        }
    }
}

/// Inline and external layouts agree: for a value of 1 to 64 bits, the
/// fixed-size read view and the generic block view decode to the same number,
/// and so does a one-block chain that holds the same bit pattern.
pub proof fn lemma_inline_external_agree(x: FixInt, m: FixIntModel, ext: Seq<Block>)
    requires
        x.wf(),
        1 <= x.width() <= 64,
        x.is_model(m),
        ext.len() == 1,
        ext[0] == x.blocks()[0],
    ensures
        model_value(m) == x.value(),
        chain_value(ext) == x.value(),
        ext == x.blocks(),
{
    lemma2_to64();
    assert(ext =~= x.blocks());
    assert(ext.drop_first() =~= Seq::<Block>::empty());
    assert(chain_value(ext.drop_first()) == 0);
    let w = x.blocks()[0].0;
    if x.width() == 8 {
        assert(w < 256);
        assert((w as u8) as int == w as int);
    } else if x.width() == 16 {
        assert((w as u16) as int == w as int);
    } else if x.width() == 32 {
        assert((w as u32) as int == w as int);
    }
}

/// A chain of zero blocks stands for zero.
proof fn lemma_zero_chain(n: nat)
    ensures
        chain_value(Seq::new(n, |i: int| Block(0))) == 0,
    decreases n,
{
    if n > 0 {
        assert(Seq::new(n, |i: int| Block(0)).drop_first() =~= Seq::new((n - 1) as nat, |i: int| Block(0)));
        lemma_zero_chain((n - 1) as nat);
    }
}

} // verus!
