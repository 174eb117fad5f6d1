//! The order of group keys.
use vstd::prelude::*;

verus! {

/// Whether key `a` comes before key `b`.
pub open spec fn key_less(a: Seq<u8>, b: Seq<u8>) -> bool
    decreases a.len(),
{
    if b.len() == 0 {
        false
    } else if a.len() == 0 {
        true
    } else if a[0] == b[0] {
        key_less(a.drop_first(), b.drop_first())
    } else {
        a[0] < b[0]
    }
}

/// No key comes before itself, and of two keys at most one comes before the
/// other.
pub(crate) proof fn key_less_strict(a: Seq<u8>, b: Seq<u8>)
    ensures
        !(key_less(a, b) && key_less(b, a)),
        !key_less(a, a),
    decreases a.len(),
{
    if a.len() > 0 {
        key_less_strict(a.drop_first(), if b.len() > 0 {
            b.drop_first()
        } else {
            b
        });
    }
}

pub(crate) proof fn key_less_transitive(a: Seq<u8>, b: Seq<u8>, c: Seq<u8>)
    ensures
        key_less(a, b) && key_less(b, c) ==> key_less(a, c),
    decreases a.len(),
{
    if a.len() > 0 && b.len() > 0 && c.len() > 0 {
        key_less_transitive(a.drop_first(), b.drop_first(), c.drop_first());
    }
}

/// Of two different keys one comes before the other.
pub(crate) proof fn key_less_total(a: Seq<u8>, b: Seq<u8>)
    ensures
        a == b || key_less(a, b) || key_less(b, a),
    decreases a.len(),
{
    if a.len() > 0 && b.len() > 0 {
        if a[0] == b[0] {
            key_less_total(a.drop_first(), b.drop_first());
            assert(a =~= seq![a[0]] + a.drop_first());
            assert(b =~= seq![b[0]] + b.drop_first());
        }
    } else if a.len() == 0 && b.len() == 0 {
        assert(a =~= b);
    }
}

/// How two keys stand to each other.
#[derive(Debug, Clone, Copy, PartialEq, Eq, Structural)]
pub enum KeyOrder {
    Before,
    Same,
    After,
}

pub(crate) fn order_keys(a: &Vec<u8>, b: &Vec<u8>) -> (r: KeyOrder)
    ensures
        r is Before <==> key_less(a@, b@),
        r is Same <==> a@ == b@,
        r is After <==> key_less(b@, a@),
{
    let mut i: usize = 0;
    assert(a@.skip(0) =~= a@);
    assert(b@.skip(0) =~= b@);
    while i < a.len() && i < b.len() && a[i] == b[i]
        invariant
            i <= a@.len(),
            i <= b@.len(),
            forall|k: int| 0 <= k < i ==> a@[k] == b@[k],
            key_less(a@, b@) == key_less(a@.skip(i as int), b@.skip(i as int)),
            key_less(b@, a@) == key_less(b@.skip(i as int), a@.skip(i as int)),
        decreases a@.len() - i,
    {
        assert(a@.skip(i as int).drop_first() =~= a@.skip(i as int + 1));
        assert(b@.skip(i as int).drop_first() =~= b@.skip(i as int + 1));
        i = i + 1;
    }
    if i == a.len() {
        if i == b.len() {
            assert(a@ =~= b@);
            KeyOrder::Same
        } else {
            KeyOrder::Before
        }
    } else if i == b.len() {
        KeyOrder::After
    } else if a[i] < b[i] {
        assert(a@[i as int] != b@[i as int]);
        KeyOrder::Before
    } else {
        assert(a@[i as int] != b@[i as int]);
        KeyOrder::After
    }
}

/// Keys come in the order of their bytes: `a` before `b` exactly where, behind
/// the bytes that they begin with in common, `a` ends and `b` does not, or `a`
/// has the smaller byte.
pub proof fn keys_compare_by_the_first_difference(a: Seq<u8>, b: Seq<u8>, n: int)
    requires
        0 <= n <= a.len(),
        n <= b.len(),
        forall|k: int| 0 <= k < n ==> a[k] == b[k],
        n == a.len() || n == b.len() || a[n] != b[n],
    ensures
        key_less(a, b) <==> n < b.len() && (n == a.len() || a[n] < b[n]),
    decreases n,
{
    if n > 0 {
        let x = a.drop_first();
        let y = b.drop_first();
        assert(a[0] == b[0]);
        assert forall|k: int| 0 <= k < n - 1 implies x[k] == y[k] by {
            assert(a[k + 1] == b[k + 1]);
        }
        keys_compare_by_the_first_difference(x, y, n - 1);
    }
}

} // verus!
