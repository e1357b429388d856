use vstd::prelude::*;

verus! {

/// A record that is written as bytes.
pub trait SerializeToBytes {
    /// The bytes the record is written as.
    spec fn spec_bytes(&self) -> Seq<u8>;

    /// Appends the record's bytes.
    fn serialize_to(&self, out: &mut Vec<u8>)
        ensures
            final(out)@ == old(out)@ + self.spec_bytes(),
    ;
}

/// A record that takes the same number of bytes on disk whatever it holds.
pub trait StaticByteSize {
    spec fn spec_byte_size() -> nat;

    fn byte_size() -> (r: usize)
        ensures
            r == Self::spec_byte_size(),
    ;
}

/// The bytes of records written one after another.
pub open spec fn records_bytes<S: SerializeToBytes>(v: Seq<S>) -> Seq<u8> {
    v.map_values(|x: S| x.spec_bytes()).flatten()
}

/// Appends each record in order.
pub fn serialize_all<S: SerializeToBytes>(items: &Vec<S>, out: &mut Vec<u8>)
    ensures
        final(out)@ == old(out)@ + records_bytes(items@),
{
    let ghost pieces = items@.map_values(|x: S| x.spec_bytes());
    let mut i: usize = 0;
    while i < items.len()
        invariant
            pieces == items@.map_values(|x: S| x.spec_bytes()),
            i <= items@.len(),
            out@ == old(out)@ + pieces.take(i as int).flatten(),
        decreases items@.len() - i,
    {
        items[i].serialize_to(out);
        proof {
            crate::erf::lemma_flatten_take_step(pieces, i as int);
        }
        i = i + 1;
    }
    proof {
        assert(pieces.take(i as int) =~= pieces);
    }
}

} // verus!
