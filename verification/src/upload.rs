//! The objects that the dump is uploaded as: their keys, when a compressed
//! chunk is complete, and which listed objects are deleted first.

use vstd::prelude::*;
use crate::text::{decimal, digits_value, lemma_decimal_shape, lemma_padded_value, pow10, push_str, push_zero_padded, zero_padded};

verus! {

/// The key of the object with the given sequence number: the prefix, the
/// number zero-padded to five digits, and `.json.gz`.
pub open spec fn object_key_of(prefix: Seq<char>, sequence_number: nat) -> Seq<char> {
    prefix + zero_padded(decimal(sequence_number), 5) + ".json.gz"@
}

/// The key of the object with the given sequence number under `prefix`.
pub fn object_key(prefix: &str, sequence_number: usize) -> (r: String)
    ensures
        r@ == object_key_of(prefix@, sequence_number as nat),
{
    let mut s = String::new();
    push_str(&mut s, prefix);
    push_zero_padded(&mut s, sequence_number as u64, 5);
    push_str(&mut s, ".json.gz");
    s
}

/// The key of an object numbered below 100000 is the prefix, five digits that
/// denote the number, and `.json.gz`.
pub proof fn object_key_fields(prefix: Seq<char>, sequence_number: nat)
    requires
        sequence_number < 100000,
    ensures
        ({
            let key = object_key_of(prefix, sequence_number);
            let p = prefix.len() as int;
            &&& key.len() == p + 13
            &&& key.subrange(0, p) == prefix
            &&& digits_value(key.subrange(p, p + 5)) == sequence_number
            &&& forall|k: int| p <= k < p + 5 ==> '0' <= #[trigger] key[k] <= '9'
            &&& key.subrange(p + 5, p + 13) == ".json.gz"@
        }),
{
    assert(pow10(5) == 100000) by {
        reveal_with_fuel(pow10, 6);
    }
    reveal_strlit(".json.gz");
    lemma_decimal_shape(sequence_number, 5);
    lemma_padded_value(sequence_number, 5);
    let d = decimal(sequence_number);
    let pad = zero_padded(d, 5);
    let key = object_key_of(prefix, sequence_number);
    let p = prefix.len() as int;
    assert(pad.len() == 5);
    assert(key.subrange(0, p) =~= prefix);
    assert(key.subrange(p, p + 5) =~= pad);
    assert(key.subrange(p + 5, p + 13) =~= ".json.gz"@);
    assert forall|k: int| p <= k < p + 5 implies '0' <= #[trigger] key[k] <= '9' by {
        assert(key[k] == pad[k - p]);
        if d.len() < 5 && k - p >= 5 - d.len() {
            assert(pad[k - p] == d[k - p - (5 - d.len())]);
        }
    }
}

/// Different sequence numbers give different object keys under one prefix, so
/// no upload overwrites another.
pub proof fn object_keys_distinct(prefix: Seq<char>, a: nat, b: nat)
    requires
        a != b,
    ensures
        object_key_of(prefix, a) != object_key_of(prefix, b),
{
    let pa = zero_padded(decimal(a), 5);
    let pb = zero_padded(decimal(b), 5);
    let suffix = ".json.gz"@;
    if object_key_of(prefix, a) == object_key_of(prefix, b) {
        let ka = object_key_of(prefix, a);
        assert(ka.len() == prefix.len() + pa.len() + suffix.len());
        assert(object_key_of(prefix, b).len() == prefix.len() + pb.len() + suffix.len());
        assert(pa.len() == pb.len());
        assert(pa =~= ka.subrange(prefix.len() as int, (prefix.len() + pa.len()) as int));
        assert(pb =~= object_key_of(prefix, b).subrange(prefix.len() as int, (prefix.len() + pb.len()) as int));
        lemma_padded_value(a, 5);
        lemma_padded_value(b, 5);
    }
}

/// Whether `s` comes before `t` in character order: at the first position
/// where they differ, `s` has the smaller character.
pub open spec fn char_order_less(s: Seq<char>, t: Seq<char>) -> bool {
    exists|i: int|
        0 <= i < s.len() && i < t.len() && s.subrange(0, i) == t.subrange(0, i) && (#[trigger] s[i])
            < t[i]
}

/// Lemma: two digit texts of one length denote the same number only when they
/// are equal, and the smaller number comes first in character order.
pub proof fn lemma_digits_order(s: Seq<char>, t: Seq<char>)
    requires
        s.len() == t.len(),
        forall|k: int| 0 <= k < s.len() ==> '0' <= #[trigger] s[k] <= '9',
        forall|k: int| 0 <= k < t.len() ==> '0' <= #[trigger] t[k] <= '9',
    ensures
        digits_value(s) == digits_value(t) ==> s == t,
        digits_value(s) < digits_value(t) ==> char_order_less(s, t),
        digits_value(s) >= 0,
    decreases s.len(),
{
    if s.len() > 0 {
        let s0 = s.drop_last();
        let t0 = t.drop_last();
        lemma_digits_order(s0, t0);
        let x = s.last() as int - 48;
        let y = t.last() as int - 48;
        assert(0 <= x <= 9 && 0 <= y <= 9);
        if digits_value(s) == digits_value(t) {
            assert(digits_value(s0) == digits_value(t0));
            assert(s =~= s0.push(s.last()));
            assert(t =~= t0.push(t.last()));
        }
        if digits_value(s) < digits_value(t) {
            if digits_value(s0) < digits_value(t0) {
                let i = choose|i: int|
                    0 <= i < s0.len() && i < t0.len() && s0.subrange(0, i) == t0.subrange(0, i) && (
                    #[trigger] s0[i]) < t0[i];
                assert(s.subrange(0, i) =~= s0.subrange(0, i));
                assert(t.subrange(0, i) =~= t0.subrange(0, i));
                assert(s[i] == s0[i] && t[i] == t0[i]);
            } else {
                assert(digits_value(s0) == digits_value(t0));
                let i = s.len() - 1;
                assert(s.subrange(0, i) =~= s0);
                assert(t.subrange(0, i) =~= t0);
                assert(s[i] < t[i]);
            }
        }
    }
}

/// Objects numbered below 100000 under one prefix have keys in the order of
/// their numbers, so listing them by key gives them in upload order.
pub proof fn object_keys_ordered(prefix: Seq<char>, a: nat, b: nat)
    requires
        a < b < 100000,
    ensures
        char_order_less(object_key_of(prefix, a), object_key_of(prefix, b)),
{
    assert(pow10(5) == 100000) by {
        reveal_with_fuel(pow10, 6);
    }
    lemma_decimal_shape(a, 5);
    lemma_decimal_shape(b, 5);
    let pa = zero_padded(decimal(a), 5);
    let pb = zero_padded(decimal(b), 5);
    assert(pa.len() == 5 && pb.len() == 5);
    assert forall|k: int| 0 <= k < 5 implies '0' <= #[trigger] pa[k] <= '9' by {
        if decimal(a).len() < 5 && k < 5 - decimal(a).len() {
        } else if decimal(a).len() < 5 {
            assert(pa[k] == decimal(a)[k - (5 - decimal(a).len())]);
        }
    }
    assert forall|k: int| 0 <= k < 5 implies '0' <= #[trigger] pb[k] <= '9' by {
        if decimal(b).len() < 5 && k < 5 - decimal(b).len() {
        } else if decimal(b).len() < 5 {
            assert(pb[k] == decimal(b)[k - (5 - decimal(b).len())]);
        }
    }
    lemma_padded_value(a, 5);
    lemma_padded_value(b, 5);
    lemma_digits_order(pa, pb);
    let i = choose|i: int| 0 <= i < pa.len() && i < pb.len() && pa.subrange(0, i) == pb.subrange(0, i) && (#[trigger] pa[i]) < pb[i];
    let ka = object_key_of(prefix, a);
    let kb = object_key_of(prefix, b);
    let j = prefix.len() + i;
    assert(ka[j] == pa[i]);
    assert(kb[j] == pb[i]);
    assert(ka.subrange(0, j) =~= prefix + pa.subrange(0, i));
    assert(kb.subrange(0, j) =~= prefix + pb.subrange(0, i));
    assert(ka[j] < kb[j]);
}

/// Decides when the compressed output is uploaded as an object, and numbers
/// the objects from 0 in the order of their uploads.
pub struct UploadPlanner {
    object_size: usize,
    uploads: usize,
}

impl UploadPlanner {
    /// The compressed size at which a chunk is uploaded.
    pub closed spec fn chunk_size(&self) -> nat {
        self.object_size as nat
    }

    /// How many uploads have been planned.
    pub closed spec fn planned(&self) -> nat {
        self.uploads as nat
    }

    /// A planner for chunks of `object_size` compressed bytes, with no upload
    /// planned yet.
    pub fn new(object_size: usize) -> (r: UploadPlanner)
        ensures
            r.chunk_size() == object_size,
            r.planned() == 0,
    {
        UploadPlanner { object_size, uploads: 0 }
    }

    /// The number of uploads planned so far.
    pub fn planned_uploads(&self) -> (r: usize)
        ensures
            r == self.planned(),
    {
        self.uploads
    }

    /// After a row was written, with `buffered` compressed bytes in the current
    /// chunk: the sequence number of the chunk's upload when it has reached the
    /// object size, which then starts a new chunk; else `None`.
    pub fn after_row(&mut self, buffered: usize) -> (r: Option<usize>)
        requires
            old(self).planned() < usize::MAX,
        ensures
            final(self).chunk_size() == old(self).chunk_size(),
            buffered >= old(self).chunk_size() ==> r == Some(old(self).planned() as usize)
                && final(self).planned() == old(self).planned() + 1,
            buffered < old(self).chunk_size() ==> r is None
                && final(self).planned() == old(self).planned(),
    {
        if buffered >= self.object_size {
            let n = self.uploads;
            self.uploads = self.uploads + 1;
            Some(n)
        } else {
            None
        }
    }

    /// After the last row, with `buffered` compressed bytes in the current
    /// chunk: the sequence number of its upload when it holds anything; else
    /// `None`.
    pub fn at_end(&mut self, buffered: usize) -> (r: Option<usize>)
        requires
            old(self).planned() < usize::MAX,
        ensures
            final(self).chunk_size() == old(self).chunk_size(),
            buffered > 0 ==> r == Some(old(self).planned() as usize)
                && final(self).planned() == old(self).planned() + 1,
            buffered == 0 ==> r is None && final(self).planned() == old(self).planned(),
    {
        if buffered > 0 {
            let n = self.uploads;
            self.uploads = self.uploads + 1;
            Some(n)
        } else {
            None
        }
    }
}

/// The keys of the listed objects that have one, in listing order.
pub open spec fn present_keys_of(listing: Seq<Option<String>>) -> Seq<Seq<char>>
    decreases listing.len(),
{
    if listing.len() == 0 {
        Seq::empty()
    } else {
        present_keys_of(listing.drop_last()) + match listing.last() {
            Some(k) => seq![k@],
            None => Seq::empty(),
        }
    }
}

/// The keys to delete are those of the listed objects that have one, each
/// once and in listing order: listing more objects after some adds exactly
/// their keys after the keys of the first ones.
pub proof fn present_keys_in_order(a: Seq<Option<String>>, b: Seq<Option<String>>)
    ensures
        present_keys_of(a + b) == present_keys_of(a) + present_keys_of(b),
        present_keys_of(a).len() <= a.len(),
        forall|i: int|
            0 <= i < a.len() ==> (#[trigger] a[i] matches Some(k) ==> present_keys_of(a).contains(k@)),
        forall|key: Seq<char>|
            #[trigger] present_keys_of(a).contains(key) ==> exists|i: int|
                0 <= i < a.len() && (#[trigger] a[i] matches Some(k) && k@ == key),
    decreases a.len() + b.len(),
{
    if b.len() > 0 {
        present_keys_in_order(a, b.drop_last());
        assert((a + b).drop_last() =~= a + b.drop_last());
        assert((a + b).last() == b.last());
        assert(present_keys_of(a + b) =~= present_keys_of(a) + present_keys_of(b));
    } else {
        assert(a + b =~= a);
        assert(present_keys_of(b) =~= Seq::<Seq<char>>::empty());
    }
    if a.len() > 0 {
        let a0 = a.drop_last();
        present_keys_in_order(a0, Seq::empty());
        let p0 = present_keys_of(a0);
        assert forall|i: int| 0 <= i < a.len() implies (#[trigger] a[i] matches Some(k)
            ==> present_keys_of(a).contains(k@)) by {
            if a[i] is Some {
                if i < a.len() - 1 {
                    assert(a0[i] == a[i]);
                    let j = choose|j: int| 0 <= j < p0.len() && p0[j] == a[i]->Some_0@;
                    assert(present_keys_of(a)[j] == p0[j]);
                } else {
                    assert(present_keys_of(a)[p0.len() as int] == a[i]->Some_0@);
                }
            }
        }
        assert forall|key: Seq<char>| #[trigger] present_keys_of(a).contains(key) implies exists|i: int|
            0 <= i < a.len() && (#[trigger] a[i] matches Some(k) && k@ == key) by {
            let j = choose|j: int| 0 <= j < present_keys_of(a).len() && present_keys_of(a)[j] == key;
            if j < p0.len() {
                assert(p0.contains(key));
                let i = choose|i: int| 0 <= i < a0.len() && (#[trigger] a0[i] matches Some(k) && k@ == key);
                assert(a[i] == a0[i]);
            } else {
                assert(a[a.len() - 1] matches Some(k) && k@ == key);
            }
        }
    }
}

/// The keys of the listed objects to delete: those that have a key.
pub fn present_keys(listing: &Vec<Option<String>>) -> (r: Vec<String>)
    ensures
        r@.map_values(|k: String| k@) == present_keys_of(listing@),
{
    let mut keys: Vec<String> = Vec::new();
    let n = listing.len();
    let mut i: usize = 0;
    while i < n
        invariant
            n == listing@.len(),
            i <= n,
            keys@.map_values(|k: String| k@) == present_keys_of(listing@.subrange(0, i as int)),
        decreases n - i,
    {
        let ghost before = keys@;
        assert(listing@.subrange(0, i + 1).drop_last() =~= listing@.subrange(0, i as int));
        match &listing[i] {
            Some(k) => {
                keys.push(k.clone());
                assert(keys@.map_values(|k: String| k@) =~= before.map_values(|k: String| k@).push(k@));
            },
            None => {
                assert(keys@.map_values(|k: String| k@) =~= before.map_values(|k: String| k@) + Seq::<Seq<char>>::empty());
            },
        }
        i = i + 1;
    }
    assert(listing@.subrange(0, n as int) =~= listing@);
    keys
}

} // verus!
