//! 256-bit network addresses and the bit prefixes that identify sections.

use vstd::prelude::*;

use crate::bytes_util::bytes_eq;

verus! {

/// The length in bytes of a network address.
pub const XOR_NAME_LEN: usize = 32;

/// A 256-bit node or content identifier; distance between two of them is
/// bitwise XOR.
#[derive(Clone, Copy, PartialEq, Eq, Hash, Debug)]
pub struct XorName(pub [u8; 32]);

impl View for XorName {
    type V = Seq<u8>;

    open spec fn view(&self) -> Seq<u8> {
        self.0@
    }
}

/// The bit of `s` at position `i`, counting from the most significant bit of
/// the first byte.
pub open spec fn spec_bit_at(s: Seq<u8>, i: int) -> bool {
    (s[i / 8] >> ((7 - (i % 8)) as u8)) & 1u8 == 1u8
}

/// Reads one bit of a 32-byte name.
pub fn name_bit(name: &XorName, i: usize) -> (r: bool)
    requires
        i < 256,
    ensures
        r == spec_bit_at(name@, i as int),
{
    let byte: u8 = name.0[i / 8];
    let shift: u8 = (7 - (i % 8)) as u8;
    ((byte >> shift) & 1u8) == 1u8
}

impl XorName {
    /// Byte-for-byte equality.
    pub fn equals(&self, other: &XorName) -> (r: bool)
        ensures
            r == (self@ == other@),
            r == (*self == *other),
    {
        let r = bytes_eq(self.0.as_slice(), other.0.as_slice());
        proof {
            if self@ == other@ {
                assert(self.0 =~= other.0);
            }
        }
        r
    }
}

/// In an all-zero byte sequence every bit is clear.
pub proof fn lemma_zero_bits(s: Seq<u8>)
    requires
        forall|k: int| 0 <= k < s.len() ==> s[k] == 0u8,
    ensures
        forall|i: int| 0 <= i < 8 * s.len() ==> !spec_bit_at(s, i),
{
    assert forall|i: int| 0 <= i < 8 * s.len() implies !spec_bit_at(s, i) by {
        let b: u8 = s[i / 8];
        assert(b == 0);
        let sh: u8 = (7 - (i % 8)) as u8;
        assert((0u8 >> sh) & 1u8 == 0u8) by (bit_vector);
    }
}

/// A binary prefix that identifies a section's address range: a name whose
/// first `len` bits are significant.
///
/// The value is kept canonical: every bit past `len` is zero, so equal
/// prefixes are byte-for-byte equal.
#[derive(Clone, Copy, PartialEq, Eq, Hash, Debug)]
pub struct Prefix {
    pub len: usize,
    pub name: XorName,
}

impl Prefix {
    /// All bits past the significant range are zero.
    pub open spec fn wf(&self) -> bool {
        &&& self.len <= 256
        &&& forall|i: int| self.len <= i < 256 ==> !spec_bit_at(self.name@, i)
    }

    /// How many leading bits are significant.
    pub open spec fn spec_bit_count(&self) -> int {
        self.len as int
    }

    /// Whether the first `len` bits of `name` agree with this prefix.
    pub open spec fn spec_matches(&self, name: Seq<u8>) -> bool {
        forall|i: int| 0 <= i < self.len ==> spec_bit_at(self.name@, i) == spec_bit_at(name, i)
    }

    /// The empty prefix, which matches every name.
    pub fn default() -> (r: Prefix)
        ensures
            r.wf(),
            r.spec_bit_count() == 0,
    {
        let name = XorName([0u8; 32]);
        proof {
            lemma_zero_bits(name@);
        }
        Prefix { len: 0, name }
    }

    /// Builds the prefix of the first `len` bits of `name`, zeroing the rest.
    pub fn new(len: usize, name: &XorName) -> (r: Prefix)
        requires
            len <= 256,
        ensures
            r.wf(),
            r.spec_bit_count() == len,
            r.spec_matches(name@),
    {
        let mut bytes: [u8; 32] = [0u8; 32];
        proof {
            lemma_zero_bits(bytes@);
        }
        let mut i: usize = 0;
        while i < len
            invariant
                0 <= i <= len <= 256,
                forall|j: int| 0 <= j < i ==> spec_bit_at(bytes@, j) == spec_bit_at(name@, j),
                forall|j: int| i <= j < 256 ==> !spec_bit_at(bytes@, j),
            decreases len - i,
        {
            let ghost pre = bytes@;
            if name_bit(name, i) {
                let byte: u8 = bytes[i / 8];
                let shift: u8 = (7 - (i % 8)) as u8;
                let updated: u8 = byte | (1u8 << shift);
                bytes[i / 8] = updated;
                proof {
                    let bi = i as int;
                    assert forall|j: int| 0 <= j < 256 implies #[trigger] spec_bit_at(
                        bytes@,
                        j,
                    ) == (if j == bi {
                        true
                    } else {
                        spec_bit_at(pre, j)
                    }) by {
                        if j / 8 == bi / 8 {
                            let b: u8 = pre[j / 8];
                            let sj: u8 = (7 - (j % 8)) as u8;
                            let si: u8 = (7 - (bi % 8)) as u8;
                            if j == bi {
                                assert(si < 8);
                                assert(si < 8 ==> ((b | (1u8 << si)) >> si) & 1u8 == 1u8)
                                    by (bit_vector);
                            } else {
                                assert(j % 8 != bi % 8);
                                assert(sj != si && sj < 8 && si < 8);
                                assert(sj != si && sj < 8 && si < 8 ==> ((b | (1u8 << si)) >> sj)
                                    & 1u8 == (b >> sj) & 1u8) by (bit_vector);
                            }
                        } else {
                            assert(bytes@[j / 8] == pre[j / 8]);
                        }
                    }
                }
            }
            i += 1;
        }
        Prefix { len, name: XorName(bytes) }
    }

    /// How many leading bits are significant.
    pub fn bit_count(&self) -> (r: usize)
        ensures
            r == self.spec_bit_count(),
    {
        self.len
    }

    /// The base name of the prefix: its significant bits followed by zeros.
    pub fn name(&self) -> (r: XorName)
        ensures
            r == self.name,
    {
        self.name
    }

    /// Whether `name` sits inside this prefix's address range.
    pub fn matches(&self, name: &XorName) -> (r: bool)
        requires
            self.wf(),
        ensures
            r == self.spec_matches(name@),
    {
        let mut i: usize = 0;
        while i < self.len
            invariant
                0 <= i <= self.len <= 256,
                forall|j: int| 0 <= j < i ==> spec_bit_at(self.name@, j) == spec_bit_at(name@, j),
            decreases self.len - i,
        {
            if name_bit(&self.name, i) != name_bit(name, i) {
                return false;
            }
            i += 1;
        }
        true
    }

    /// Structural equality; on canonical prefixes this is exactly "same
    /// significant bits".
    pub fn equals(&self, other: &Prefix) -> (r: bool)
        ensures
            r == (*self == *other),
    {
        let r = self.len == other.len && self.name.equals(&other.name);
        r
    }
}

} // verus!
