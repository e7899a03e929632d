//! Identifiers, their order, and sets of them kept in that order.

use vstd::prelude::*;
use vstd::utf8::{decode_utf8, encode_utf8, encode_utf8_decode_utf8};

verus! {

/// Lexicographic order on bytes, read from position `i` on.
pub open spec fn bytes_lt_from(a: Seq<u8>, b: Seq<u8>, i: int) -> bool
    decreases a.len() - i,
{
    if i < 0 || i >= b.len() {
        false
    } else if i >= a.len() {
        true
    } else if a[i] != b[i] {
        a[i] < b[i]
    } else {
        bytes_lt_from(a, b, i + 1)
    }
}

/// The order of identifiers: that of their UTF-8 bytes.
pub open spec fn name_lt(a: Seq<char>, b: Seq<char>) -> bool {
    bytes_lt_from(encode_utf8(a), encode_utf8(b), 0)
}

pub proof fn lemma_bytes_lt_transitive(a: Seq<u8>, b: Seq<u8>, c: Seq<u8>, i: int)
    requires
        0 <= i,
        bytes_lt_from(a, b, i),
        bytes_lt_from(b, c, i),
    ensures
        bytes_lt_from(a, c, i),
    decreases a.len() - i,
{
    if i < a.len() && i < b.len() && i < c.len() && a[i] == b[i] && b[i] == c[i] {
        lemma_bytes_lt_transitive(a, b, c, i + 1);
    }
}

pub proof fn lemma_bytes_lt_irreflexive(a: Seq<u8>, i: int)
    requires
        0 <= i,
    ensures
        !bytes_lt_from(a, a, i),
    decreases a.len() - i,
{
    if i < a.len() {
        lemma_bytes_lt_irreflexive(a, i + 1);
    }
}

pub proof fn lemma_bytes_lt_total(a: Seq<u8>, b: Seq<u8>, i: int)
    requires
        0 <= i <= a.len(),
        i <= b.len(),
        !bytes_lt_from(a, b, i),
        !bytes_lt_from(b, a, i),
    ensures
        a.skip(i) == b.skip(i),
    decreases a.len() - i,
{
    if i < a.len() && i < b.len() {
        lemma_bytes_lt_total(a, b, i + 1);
        let x = a.skip(i + 1);
        let y = b.skip(i + 1);
        assert(x.len() == y.len());
        assert forall|j: int| 0 <= j < a.len() - i implies a.skip(i)[j] == b.skip(i)[j] by {
            if j > 0 {
                assert(x[j - 1] == a[i + j]);
                assert(y[j - 1] == b[i + j]);
            }
        }
    }
    assert(a.skip(i) =~= b.skip(i));
}

/// The order is transitive.
pub proof fn lemma_name_lt_transitive(a: Seq<char>, b: Seq<char>, c: Seq<char>)
    requires
        name_lt(a, b),
        name_lt(b, c),
    ensures
        name_lt(a, c),
{
    lemma_bytes_lt_transitive(encode_utf8(a), encode_utf8(b), encode_utf8(c), 0);
}

/// No name comes before itself.
pub proof fn lemma_name_lt_irreflexive(a: Seq<char>)
    ensures
        !name_lt(a, a),
{
    lemma_bytes_lt_irreflexive(encode_utf8(a), 0);
}

/// Two names that the order does not tell apart are the same name.
pub proof fn lemma_name_lt_total(a: Seq<char>, b: Seq<char>)
    requires
        !name_lt(a, b),
        !name_lt(b, a),
    ensures
        a == b,
{
    let x = encode_utf8(a);
    let y = encode_utf8(b);
    lemma_bytes_lt_total(x, y, 0);
    assert(x.skip(0) =~= x);
    assert(y.skip(0) =~= y);
    encode_utf8_decode_utf8(a);
    encode_utf8_decode_utf8(b);
    assert(decode_utf8(x) == a);
    assert(decode_utf8(y) == b);
}

/// Whether `a` comes before `b`.
pub fn name_before(a: &String, b: &String) -> (r: bool)
    ensures
        r == name_lt(a@, b@),
{
    let x = a.as_str().as_bytes();
    let y = b.as_str().as_bytes();
    let mut i: usize = 0;
    while i < x.len() && i < y.len()
        invariant
            i <= x.len(),
            i <= y.len(),
            x@ == encode_utf8(a@),
            y@ == encode_utf8(b@),
            name_lt(a@, b@) == bytes_lt_from(x@, y@, i as int),
        decreases x.len() - i,
    {
        if x[i] != y[i] {
            return x[i] < y[i];
        }
        i += 1;
    }
    i < y.len()
}

/// A set of identifiers, held in their order with nothing twice.
pub struct NameSet {
    pub names: Vec<String>,
}

impl View for NameSet {
    type V = Seq<Seq<char>>;

    open spec fn view(&self) -> Seq<Seq<char>> {
        Seq::new(self.names@.len(), |i: int| self.names@[i]@)
    }
}

/// Whether a sequence of names ascends strictly.
pub open spec fn ascending(names: Seq<Seq<char>>) -> bool {
    forall|i: int, j: int| 0 <= i < j < names.len() ==> name_lt(names[i], names[j])
}

impl NameSet {
    /// Whether the names ascend, so that none occurs twice.
    pub open spec fn well_formed(self) -> bool {
        ascending(self@)
    }

    /// The empty set.
    pub fn new() -> (r: NameSet)
        ensures
            r.well_formed(),
            r@ == Seq::<Seq<char>>::empty(),
    {
        let r = NameSet { names: Vec::new() };
        assert(r@ =~= Seq::<Seq<char>>::empty());
        r
    }

    /// Adds `name` unless the set holds it already.
    pub fn insert(&mut self, name: String)
        requires
            old(self).well_formed(),
        ensures
            final(self).well_formed(),
            final(self)@.to_set() == old(self)@.to_set().insert(name@),
            old(self)@.contains(name@) ==> final(self)@ == old(self)@,
            !old(self)@.contains(name@) ==> final(self)@.len() == old(self)@.len() + 1,
    {
        let ghost before = self@;
        let mut i: usize = 0;
        while i < self.names.len() && name_before(&self.names[i], &name)
            invariant
                i <= self.names.len(),
                self@ == before,
                forall|j: int| 0 <= j < i ==> name_lt(#[trigger] before[j], name@),
            decreases self.names.len() - i,
        {
            assert(before[i as int] == self.names@[i as int]@);
            i += 1;
        }
        if i < self.names.len() && self.names[i] == name {
            assert(before[i as int] == name@);
            assert(before.to_set() =~= before.to_set().insert(name@));
            return ;
        }
        proof {
            assert forall|j: int| i <= j < before.len() implies name_lt(
                name@,
                #[trigger] before[j],
            ) by {
                assert(before[i as int] == self.names@[i as int]@);
                if !name_lt(name@, before[i as int]) {
                    lemma_name_lt_total(name@, before[i as int]);
                }
                if j > i {
                    lemma_name_lt_transitive(name@, before[i as int], before[j]);
                }
            }
            assert(!before.contains(name@)) by {
                if before.contains(name@) {
                    let k = choose|k: int| 0 <= k < before.len() && before[k] == name@;
                    lemma_name_lt_irreflexive(name@);
                }
            }
        }
        self.names.insert(i, name);
        proof {
            let after = self@;
            assert(after =~= before.insert(i as int, name@));
            assert forall|p: int, q: int| 0 <= p < q < after.len() implies name_lt(
                after[p],
                after[q],
            ) by {
                if q == i {
                    assert(after[p] == before[p]);
                } else if p == i {
                    assert(after[q] == before[q - 1]);
                } else {
                    let p0 = if p < i { p } else { p - 1 };
                    let q0 = if q < i { q } else { q - 1 };
                    assert(after[p] == before[p0]);
                    assert(after[q] == before[q0]);
                }
            }
            assert(after.to_set() =~= before.to_set().insert(name@)) by {
                assert forall|n: Seq<char>| after.to_set().contains(n) <==> before.to_set().insert(
                    name@,
                ).contains(n) by {
                    if after.contains(n) {
                        let k = choose|k: int| 0 <= k < after.len() && after[k] == n;
                        if k < i {
                            assert(before[k] == n);
                        } else if k > i {
                            assert(before[k - 1] == n);
                        }
                    }
                    if before.contains(n) {
                        let k = choose|k: int| 0 <= k < before.len() && before[k] == n;
                        if k < i {
                            assert(after[k] == n);
                        } else {
                            assert(after[k + 1] == n);
                        }
                    }
                    if n == name@ {
                        assert(after[i as int] == n);
                    }
                }
            }
        }
    }
}

} // verus!
