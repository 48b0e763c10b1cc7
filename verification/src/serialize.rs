//! Writing a syntax tree back to bytes.

use vstd::prelude::*;

verus! {

/// A node of the syntax tree that can be written back as the bytes it was
/// read from.
pub trait BinSerialize {
    /// The bytes that this node stands for.
    spec fn serialized(&self) -> Seq<u8>;

    /// Appends the bytes of this node to `buf`.
    fn serialize_to(&self, buf: &mut Vec<u8>)
        ensures
            final(buf)@ == old(buf)@ + self.serialized(),
    ;
}

/// Appends `bytes` to `buf`.
pub fn write_all(buf: &mut Vec<u8>, bytes: &[u8])
    ensures
        final(buf)@ == old(buf)@ + bytes@,
{
    let mut i: usize = 0;
    while i < bytes.len()
        invariant
            i <= bytes.len(),
            buf@ == old(buf)@ + bytes@.take(i as int),
        decreases bytes.len() - i,
    {
        buf.push(bytes[i]);
        i += 1;
        assert(bytes@.take(i as int) == bytes@.take(i - 1).push(bytes@[i - 1]));
    }
    assert(bytes@.take(i as int) == bytes@);
}

} // verus!
