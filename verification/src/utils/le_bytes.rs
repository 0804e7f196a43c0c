//! Little-endian reads and writes of byte-addressed memory.
use vstd::prelude::*;

verus! {

/// The little-endian value of two bytes.
pub open spec fn le_u16(b0: u8, b1: u8) -> u16 {
    (b0 as int + 256 * b1 as int) as u16
}

/// The little-endian value of four bytes.
pub open spec fn le_u32(b0: u8, b1: u8, b2: u8, b3: u8) -> u32 {
    (b0 as int + 256 * b1 as int + 65536 * b2 as int + 16777216 * b3 as int) as u32
}

/// Widening a byte or a halfword as a signed number sets every bit above it
/// when its top bit is set, and narrowing keeps the low bytes.
pub proof fn lemma_width_bits(x: u8, h: u16, v: u32)
    by (bit_vector)
    ensures
        x < 0x80u8 ==> (x as i8 as i32 as u32) == x as u32 && (x as i8 as u32) == x as u32,
        x >= 0x80u8 ==> (x as i8 as i32 as u32) == x as u32 + 0xFFFF_FF00u32
            && (x as i8 as u32) == x as u32 + 0xFFFF_FF00u32,
        h < 0x8000u16 ==> (h as i16 as i32 as u32) == h as u32 && (h as i16 as u32) == h as u32,
        h >= 0x8000u16 ==> (h as i16 as i32 as u32) == h as u32 + 0xFFFF_0000u32
            && (h as i16 as u32) == h as u32 + 0xFFFF_0000u32,
        (v as u8) == v % 256 && (v & 0xff) == v % 256 && (v as u16) == v % 65536,
{
}

/// The halfword at `addr`.
pub open spec fn spec_read_u16(mem: Seq<u8>, addr: int) -> u16 {
    le_u16(mem[addr], mem[addr + 1])
}

/// The word at `addr`.
pub open spec fn spec_read_u32(mem: Seq<u8>, addr: int) -> u32 {
    le_u32(mem[addr], mem[addr + 1], mem[addr + 2], mem[addr + 3])
}

/// Byte `i` (least significant first) of `v`.
pub open spec fn byte_of(v: u32, i: int) -> u8 {
    ((v as int / pow256(i)) % 256) as u8
}

pub open spec fn pow256(i: int) -> int {
    if i <= 0 { 1 } else if i == 1 { 256 } else if i == 2 { 65536 } else { 16777216 }
}

/// Memory after storing the low `n` bytes of `v` at `addr`, little-endian.
pub open spec fn spec_write_le(mem: Seq<u8>, addr: int, v: u32, n: int) -> Seq<u8> {
    Seq::new(mem.len(), |j: int| if addr <= j < addr + n { byte_of(v, j - addr) } else { mem[j] })
}

/// Memory after copying `bytes` to `addr`.
pub open spec fn spec_copy_in(mem: Seq<u8>, addr: int, bytes: Seq<u8>) -> Seq<u8> {
    Seq::new(mem.len(), |j: int| if addr <= j < addr + bytes.len() { bytes[j - addr] } else { mem[j] })
}

pub fn read_u16(mem: &Vec<u8>, addr: usize) -> (r: u16)
    requires
        addr + 2 <= mem@.len(),
    ensures
        r == spec_read_u16(mem@, addr as int),
{
    let _n = mem.len();
    let b0 = mem[addr];
    let b1 = mem[addr + 1];
    assert((b0 as u16) | ((b1 as u16) << 8u16) == (b0 as int + 256 * b1 as int) as u16) by (bit_vector);
    (b0 as u16) | ((b1 as u16) << 8u16)
}

pub fn read_u32(mem: &Vec<u8>, addr: usize) -> (r: u32)
    requires
        addr + 4 <= mem@.len(),
    ensures
        r == spec_read_u32(mem@, addr as int),
{
    let _n = mem.len();
    let b0 = mem[addr];
    let b1 = mem[addr + 1];
    let b2 = mem[addr + 2];
    let b3 = mem[addr + 3];
    let r = (b0 as u32) | ((b1 as u32) << 8u32) | ((b2 as u32) << 16u32) | ((b3 as u32) << 24u32);
    assert(r == (b0 as int + 256 * b1 as int + 65536 * b2 as int + 16777216 * b3 as int) as u32) by (bit_vector)
        requires r == (b0 as u32) | ((b1 as u32) << 8u32) | ((b2 as u32) << 16u32) | ((b3 as u32) << 24u32);
    r
}

/// Stores the low `n` bytes of `v` at `addr`, little-endian.
pub fn write_le(mem: &mut Vec<u8>, addr: usize, v: u32, n: usize)
    requires
        n <= 4,
        addr + n <= old(mem)@.len(),
    ensures
        final(mem)@ == spec_write_le(old(mem)@, addr as int, v, n as int),
{
    let len = mem.len();
    let mut i: usize = 0;
    while i < n
        invariant
            len == mem@.len(),
            n <= 4,
            i <= n,
            addr + n <= mem@.len(),
            mem@.len() == old(mem)@.len(),
            mem@ == spec_write_le(old(mem)@, addr as int, v, i as int),
        decreases n - i,
    {
        let shift: u32 = 8 * (i as u32);
        let b = ((v >> shift) & 0xff) as u8;
        proof {
            assert(((v >> shift) & 0xff) as int == (v as int / pow256(i as int)) % 256) by {
                if i == 0 {
                    assert(((v >> 0u32) & 0xff) as int == (v as int / 1) % 256) by (bit_vector);
                } else if i == 1 {
                    assert(((v >> 8u32) & 0xff) as int == (v as int / 256) % 256) by (bit_vector);
                } else if i == 2 {
                    assert(((v >> 16u32) & 0xff) as int == (v as int / 65536) % 256) by (bit_vector);
                } else {
                    assert(((v >> 24u32) & 0xff) as int == (v as int / 16777216) % 256) by (bit_vector);
                }
            }
        }
        mem.set(addr + i, b);
        i = i + 1;
        assert(mem@ =~= spec_write_le(old(mem)@, addr as int, v, i as int));
    }
}

/// Copies `bytes` to `addr`.
pub fn copy_in(mem: &mut Vec<u8>, addr: usize, bytes: &[u8])
    requires
        addr + bytes@.len() <= old(mem)@.len(),
    ensures
        final(mem)@ == spec_copy_in(old(mem)@, addr as int, bytes@),
{
    let len = mem.len();
    let mut i: usize = 0;
    while i < bytes.len()
        invariant
            len == mem@.len(),
            i <= bytes@.len(),
            addr + bytes@.len() <= mem@.len(),
            mem@.len() == old(mem)@.len(),
            mem@ == spec_copy_in(old(mem)@, addr as int, bytes@.subrange(0, i as int)),
        decreases bytes@.len() - i,
    {
        mem.set(addr + i, bytes[i]);
        i = i + 1;
        assert(mem@ =~= spec_copy_in(old(mem)@, addr as int, bytes@.subrange(0, i as int)));
    }
    assert(bytes@.subrange(0, bytes@.len() as int) =~= bytes@);
}

/// A word stored and then read back at the same address is the word stored.
pub proof fn law_write_read_u32(mem: Seq<u8>, addr: int, v: u32)
    requires
        0 <= addr,
        addr + 4 <= mem.len(),
    ensures
        spec_read_u32(spec_write_le(mem, addr, v, 4), addr) == v,
{
    let m = spec_write_le(mem, addr, v, 4);
    assert(m[addr] == byte_of(v, 0));
    assert(m[addr + 1] == byte_of(v, 1));
    assert(m[addr + 2] == byte_of(v, 2));
    assert(m[addr + 3] == byte_of(v, 3));
    let b0 = byte_of(v, 0);
    let b1 = byte_of(v, 1);
    let b2 = byte_of(v, 2);
    let b3 = byte_of(v, 3);
    assert(b0 as int + 256 * b1 as int + 65536 * b2 as int + 16777216 * b3 as int == v as int) by (nonlinear_arith)
        requires
            b0 == ((v as int / 1) % 256) as u8,
            b1 == ((v as int / 256) % 256) as u8,
            b2 == ((v as int / 65536) % 256) as u8,
            b3 == ((v as int / 16777216) % 256) as u8,
            0 <= v <= 0xffff_ffff,
    ;
}

} // verus!
