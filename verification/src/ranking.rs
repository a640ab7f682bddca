//! Lexicographic order of textual identity keys, and a stable sort by such keys.

use vstd::prelude::*;

use crate::text::chars_equal;

verus! {

/// `a` comes strictly before `b` in lexicographic order of code points, a proper prefix
/// first: the order of `String` comparison.
pub open spec fn text_before(a: Seq<char>, b: Seq<char>) -> bool
    decreases a.len(),
{
    if a.len() == 0 {
        b.len() > 0
    } else if b.len() == 0 {
        false
    } else if a[0] != b[0] {
        a[0] < b[0]
    } else {
        text_before(a.drop_first(), b.drop_first())
    }
}

/// No text comes before itself.
pub proof fn lemma_text_irreflexive(a: Seq<char>)
    ensures
        !text_before(a, a),
    decreases a.len(),
{
    if a.len() > 0 {
        lemma_text_irreflexive(a.drop_first());
    }
}

/// Lexicographic order is transitive.
pub proof fn lemma_text_transitive(a: Seq<char>, b: Seq<char>, c: Seq<char>)
    requires
        text_before(a, b),
        text_before(b, c),
    ensures
        text_before(a, c),
    decreases a.len(),
{
    if a.len() > 0 && b.len() > 0 && c.len() > 0 && a[0] == b[0] && b[0] == c[0] {
        lemma_text_transitive(a.drop_first(), b.drop_first(), c.drop_first());
    }
}

/// Of two different texts, one comes before the other.
pub proof fn lemma_text_total(a: Seq<char>, b: Seq<char>)
    requires
        a != b,
    ensures
        text_before(a, b) || text_before(b, a),
    decreases a.len(),
{
    if a.len() == 0 && b.len() == 0 {
        assert(a =~= b);
    } else if a.len() > 0 && b.len() > 0 && a[0] == b[0] {
        if a.drop_first() == b.drop_first() {
            assert(a.drop_first().len() == b.drop_first().len());
            assert(a.len() == b.len());
            assert forall|k: int| 0 <= k < a.len() implies a[k] == b[k] by {
                if k > 0 {
                    assert(a[k] == a.drop_first()[k - 1]);
                    assert(b[k] == b.drop_first()[k - 1]);
                }
            }
            assert(a =~= b);
        }
        lemma_text_total(a.drop_first(), b.drop_first());
    }
}

/// True when `a` comes strictly before `b`.
pub fn text_precedes(a: &Vec<char>, b: &Vec<char>) -> (r: bool)
    ensures
        r == text_before(a@, b@),
{
    let mut i: usize = 0;
    assert(a@.skip(0) =~= a@);
    assert(b@.skip(0) =~= b@);
    loop
        invariant
            i <= a@.len(),
            i <= b@.len(),
            text_before(a@, b@) == text_before(a@.skip(i as int), b@.skip(i as int)),
        decreases a@.len() - i,
    {
        if i == a.len() {
            return i < b.len();
        }
        if i == b.len() {
            return false;
        }
        let x = a[i];
        let y = b[i];
        assert(a@.skip(i as int)[0] == x);
        assert(b@.skip(i as int)[0] == y);
        if x != y {
            return x < y;
        }
        assert(a@.skip(i as int).drop_first() =~= a@.skip(i + 1));
        assert(b@.skip(i as int).drop_first() =~= b@.skip(i + 1));
        i = i + 1;
    }
}

/// A three-part textual key, such as engine, backend and device.
pub type TextKey = (Vec<char>, Vec<char>, Vec<char>);

/// The characters of a key's parts.
pub open spec fn key_view(k: TextKey) -> (Seq<char>, Seq<char>, Seq<char>) {
    (k.0@, k.1@, k.2@)
}

/// Lexicographic order of keys, part by part.
pub open spec fn key_before(x: (Seq<char>, Seq<char>, Seq<char>), y: (Seq<char>, Seq<char>, Seq<char>)) -> bool {
    ||| text_before(x.0, y.0)
    ||| x.0 == y.0 && text_before(x.1, y.1)
    ||| x.0 == y.0 && x.1 == y.1 && text_before(x.2, y.2)
}

/// No key comes before itself.
pub proof fn lemma_key_irreflexive(x: (Seq<char>, Seq<char>, Seq<char>))
    ensures
        !key_before(x, x),
{
    lemma_text_irreflexive(x.0);
    lemma_text_irreflexive(x.1);
    lemma_text_irreflexive(x.2);
}

/// Key order is transitive.
pub proof fn lemma_key_transitive(
    x: (Seq<char>, Seq<char>, Seq<char>),
    y: (Seq<char>, Seq<char>, Seq<char>),
    z: (Seq<char>, Seq<char>, Seq<char>),
)
    requires
        key_before(x, y),
        key_before(y, z),
    ensures
        key_before(x, z),
{
    if text_before(x.0, y.0) && text_before(y.0, z.0) {
        lemma_text_transitive(x.0, y.0, z.0);
    }
    if x.0 == y.0 && y.0 == z.0 && text_before(x.1, y.1) && text_before(y.1, z.1) {
        lemma_text_transitive(x.1, y.1, z.1);
    }
    if x.0 == y.0 && y.0 == z.0 && x.1 == y.1 && y.1 == z.1 && text_before(x.2, y.2)
        && text_before(y.2, z.2) {
        lemma_text_transitive(x.2, y.2, z.2);
    }
}

/// Of two different keys, one comes before the other.
pub proof fn lemma_key_total(x: (Seq<char>, Seq<char>, Seq<char>), y: (Seq<char>, Seq<char>, Seq<char>))
    requires
        x != y,
    ensures
        key_before(x, y) || key_before(y, x),
{
    if x.0 != y.0 {
        lemma_text_total(x.0, y.0);
    } else if x.1 != y.1 {
        lemma_text_total(x.1, y.1);
    } else {
        lemma_text_total(x.2, y.2);
    }
}

/// "Not before" is transitive.
pub proof fn lemma_key_not_before_transitive(
    x: (Seq<char>, Seq<char>, Seq<char>),
    y: (Seq<char>, Seq<char>, Seq<char>),
    z: (Seq<char>, Seq<char>, Seq<char>),
)
    requires
        !key_before(x, y),
        !key_before(y, z),
    ensures
        !key_before(x, z),
{
    if key_before(x, z) {
        if y == z {
        } else {
            lemma_key_total(y, z);
            lemma_key_transitive(x, z, y);
        }
    }
}

/// A key that comes before another does not come after it.
pub proof fn lemma_key_asymmetric(x: (Seq<char>, Seq<char>, Seq<char>), y: (Seq<char>, Seq<char>, Seq<char>))
    requires
        key_before(x, y),
    ensures
        !key_before(y, x),
        x != y,
{
    lemma_key_irreflexive(x);
    if key_before(y, x) {
        lemma_key_transitive(x, y, x);
    }
}

/// True when key `x` comes strictly before key `y`.
pub fn key_precedes(x: &TextKey, y: &TextKey) -> (r: bool)
    ensures
        r == key_before(key_view(*x), key_view(*y)),
{
    if text_precedes(&x.0, &y.0) {
        return true;
    }
    if !chars_equal(x.0.as_slice(), y.0.as_slice()) {
        return false;
    }
    if text_precedes(&x.1, &y.1) {
        return true;
    }
    if !chars_equal(x.1.as_slice(), y.1.as_slice()) {
        return false;
    }
    text_precedes(&x.2, &y.2)
}

/// `out` is `items` reordered by `perm`, with keys in order and items of equal keys in
/// their original order.
pub open spec fn stably_sorted<T>(items: Seq<(TextKey, T)>, out: Seq<(TextKey, T)>, perm: Seq<int>) -> bool {
    &&& perm.len() == items.len()
    &&& out.len() == items.len()
    &&& forall|i: int|
        0 <= i < out.len() ==> 0 <= #[trigger] perm[i] < items.len() && out[i] == items[perm[i]]
    &&& forall|i: int, j: int| 0 <= i < j < out.len() ==> #[trigger] perm[i] != #[trigger] perm[j]
    &&& forall|i: int, j: int|
        0 <= i < j < out.len() ==> !key_before(
            key_view((#[trigger] out[j]).0),
            key_view((#[trigger] out[i]).0),
        )
    &&& forall|i: int, j: int|
        0 <= i < j < out.len() && key_view((#[trigger] out[i]).0) == key_view(
            (#[trigger] out[j]).0,
        ) ==> perm[i] < perm[j]
}

/// Inserting the next item after every key it does not precede keeps a stable order.
#[verifier::rlimit(60)]
#[verifier::spinoff_prover]
proof fn lemma_insert_keeps_order<T>(
    items: Seq<(TextKey, T)>,
    out: Seq<(TextKey, T)>,
    perm: Seq<int>,
    p: int,
)
    requires
        out.len() < items.len(),
        stably_sorted(items.take(out.len() as int), out, perm),
        0 <= p <= out.len(),
        p == 0 || !key_before(key_view(items[out.len() as int].0), key_view(out[p - 1].0)),
        forall|q: int|
            p <= q < out.len() ==> key_before(
                key_view(items[out.len() as int].0),
                key_view(#[trigger] out[q].0),
            ),
    ensures
        stably_sorted(
            items.take(out.len() as int + 1),
            out.insert(p, items[out.len() as int]),
            perm.insert(p, out.len() as int),
        ),
{
    let n = out.len() as int;
    let x = items[n];
    let kx = key_view(x.0);
    let out2 = out.insert(p, x);
    let perm2 = perm.insert(p, n);
    let pre = items.take(n);
    let pre2 = items.take(n + 1);
    out.insert_ensures(p, x);
    perm.insert_ensures(p, n);
    assert forall|i: int| 0 <= i < out2.len() implies 0 <= #[trigger] perm2[i] < pre2.len()
        && out2[i] == pre2[perm2[i]] by {
        if i < p {
            assert(perm2[i] == perm[i]);
            assert(out2[i] == out[i]);
        } else if i > p {
            assert(perm2[i] == perm[i - 1]);
            assert(out2[i] == out[i - 1]);
        }
    }
    assert forall|i: int, j: int| 0 <= i < j < out2.len() implies #[trigger] perm2[i]
        != #[trigger] perm2[j] by {
        let a = if i < p {
            i
        } else {
            i - 1
        };
        let b = if j < p {
            j
        } else {
            j - 1
        };
        if i != p && j != p {
            assert(perm2[i] == perm[a]);
            assert(perm2[j] == perm[b]);
            assert(perm[a] != perm[b]);
        } else if i == p {
            assert(perm2[j] == perm[b]);
            assert(perm[b] < n);
        } else {
            assert(perm2[i] == perm[a]);
            assert(perm[a] < n);
        }
    }
    assert forall|i: int, j: int| 0 <= i < j < out2.len() implies !key_before(
        key_view((#[trigger] out2[j]).0),
        key_view((#[trigger] out2[i]).0),
    ) by {
        if j < p {
            assert(out2[i] == out[i] && out2[j] == out[j]);
        } else if j == p {
            assert(out2[i] == out[i]);
            if i < p - 1 {
                assert(!key_before(key_view(out[p - 1].0), key_view(out[i].0)));
                lemma_key_not_before_transitive(kx, key_view(out[p - 1].0), key_view(out[i].0));
            }
        } else if i < p {
            assert(out2[i] == out[i] && out2[j] == out[j - 1]);
        } else if i == p {
            assert(out2[j] == out[j - 1]);
            lemma_key_asymmetric(kx, key_view(out[j - 1].0));
        } else {
            assert(out2[i] == out[i - 1] && out2[j] == out[j - 1]);
        }
    }
    assert forall|i: int, j: int|
        0 <= i < j < out2.len() && key_view((#[trigger] out2[i]).0) == key_view(
            (#[trigger] out2[j]).0,
        ) implies perm2[i] < perm2[j] by {
        if j < p {
            assert(out2[i] == out[i] && out2[j] == out[j]);
            assert(perm2[i] == perm[i] && perm2[j] == perm[j]);
        } else if j == p {
            assert(perm2[i] == perm[i]);
            assert(perm[i] < n);
        } else if i < p {
            assert(out2[i] == out[i] && out2[j] == out[j - 1]);
            assert(perm2[i] == perm[i] && perm2[j] == perm[j - 1]);
        } else if i == p {
            assert(out2[j] == out[j - 1]);
            lemma_key_asymmetric(kx, key_view(out[j - 1].0));
        } else {
            assert(out2[i] == out[i - 1] && out2[j] == out[j - 1]);
            assert(perm2[i] == perm[i - 1] && perm2[j] == perm[j - 1]);
        }
    }
}

/// Sorts keyed items by key; items with equal keys keep their relative order.
pub fn stable_sort_by_key<T>(items: Vec<(TextKey, T)>) -> (out: Vec<(TextKey, T)>)
    ensures
        exists|perm: Seq<int>| stably_sorted(items@, out@, perm),
{
    let ghost orig = items@;
    let n = items.len();
    let mut rest = items;
    let mut out: Vec<(TextKey, T)> = Vec::new();
    let ghost mut perm: Seq<int> = Seq::empty();
    assert(orig.skip(0) =~= orig);
    let mut i: usize = 0;
    while i < n
        invariant
            n == orig.len(),
            i <= n,
            rest@ == orig.skip(i as int),
            out@.len() == i,
            stably_sorted(orig.take(i as int), out@, perm),
        decreases n - i,
    {
        let x = rest.remove(0);
        assert(x == orig[i as int]);
        assert(rest@ =~= orig.skip(i + 1));
        let mut p: usize = out.len();
        while p > 0 && key_precedes(&x.0, &out[p - 1].0)
            invariant
                p <= out@.len(),
                forall|q: int|
                    p <= q < out@.len() ==> key_before(key_view(x.0), key_view(#[trigger] out@[q].0)),
            decreases p,
        {
            p = p - 1;
        }
        proof {
            lemma_insert_keeps_order(orig, out@, perm, p as int);
            assert(orig.take(i + 1).take(i as int) =~= orig.take(i as int));
            perm = perm.insert(p as int, i as int);
        }
        out.insert(p, x);
        i = i + 1;
    }
    assert(orig.take(n as int) =~= orig);
    out
}

} // verus!
