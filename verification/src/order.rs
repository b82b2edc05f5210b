use vstd::prelude::*;
use vstd::std_specs::btree::increasing_seq;
use vstd::std_specs::cmp::OrdSpec;

verus! {

/// Keys that a map of integer keys hands out in increasing order are
/// strictly ascending numbers.
pub proof fn lemma_increasing_timestamps(keys: Seq<u64>)
    requires
        increasing_seq(keys),
    ensures
        forall|i: int, j: int| 0 <= i < j < keys.len() ==> keys[i] < keys[j],
{
    assert forall|i: int, j: int| 0 <= i < j < keys.len() implies keys[i] < keys[j] by {
        assert(keys[i].cmp_spec(&keys[j]) is Less);
    }
}

/// Whether the pair `a` comes at or before the pair `b`: first by the
/// seconds, then by the nanoseconds.
pub open spec fn key_le(a: (u64, u32), b: (u64, u32)) -> bool {
    a.0 < b.0 || (a.0 == b.0 && a.1 <= b.1)
}

/// Keys of seconds and nanoseconds that a map hands out in increasing order
/// ascend strictly: first by the seconds, then by the nanoseconds.
pub proof fn lemma_increasing_keys(keys: Seq<(u64, u32)>)
    requires
        increasing_seq(keys),
    ensures
        forall|i: int, j: int|
            #![trigger keys[i], keys[j]]
            0 <= i < j < keys.len() ==> keys[i] != keys[j] && key_le(keys[i], keys[j]),
{
    assert forall|i: int, j: int|
        #![trigger keys[i], keys[j]]
        0 <= i < j < keys.len() implies keys[i] != keys[j] && key_le(keys[i], keys[j]) by {
        assert(keys[i].cmp_spec(&keys[j]) is Less);
    }
}

} // verus!
