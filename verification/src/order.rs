use vstd::prelude::*;

verus! {

/// How one byte string stands to another in the order of their bytes.
#[derive(Clone, Copy, Debug, PartialEq, Eq, Structural)]
pub enum Order {
    Less,
    Equal,
    Greater,
}

/// Whether `a` comes before `b`, given that they agree on their first `i` bytes: at the
/// first place where they differ `a` has the smaller byte, or `a` ends there and `b` goes on.
pub open spec fn lex_lt_from(a: Seq<u8>, b: Seq<u8>, i: int) -> bool
    decreases b.len() - i,
{
    if i < 0 || i >= b.len() {
        false
    } else if i >= a.len() {
        true
    } else if a[i] != b[i] {
        a[i] < b[i]
    } else {
        lex_lt_from(a, b, i + 1)
    }
}

/// Whether `a` comes before `b` in the order of byte strings.
pub open spec fn lex_lt(a: Seq<u8>, b: Seq<u8>) -> bool {
    lex_lt_from(a, b, 0)
}

/// Whether the strings never step down from one to the next.
pub open spec fn ascending(names: Seq<&[u8]>) -> bool {
    forall|i: int, j: int|
        0 <= i <= j < names.len() ==> !lex_lt(#[trigger] names[j]@, #[trigger] names[i]@)
}

/// Two strings that agree up to `i` and of which neither comes before the other are equal.
pub proof fn lemma_lex_total(a: Seq<u8>, b: Seq<u8>, i: int)
    requires
        0 <= i,
        forall|k: int| 0 <= k < i && k < a.len() && k < b.len() ==> a[k] == b[k],
        i <= a.len(),
        i <= b.len(),
        !lex_lt_from(a, b, i),
        !lex_lt_from(b, a, i),
    ensures
        a == b,
    decreases a.len() + b.len() - i,
{
    if i >= a.len() || i >= b.len() {
        assert(a =~= b);
    } else {
        lemma_lex_total(a, b, i + 1);
    }
}

/// No string comes before itself, and of two strings at most one comes before the other.
pub proof fn lemma_lex_asymmetric(a: Seq<u8>, b: Seq<u8>, i: int)
    requires
        0 <= i,
        lex_lt_from(a, b, i),
    ensures
        !lex_lt_from(b, a, i),
    decreases b.len() - i,
{
    if i < a.len() && i < b.len() && a[i] == b[i] {
        lemma_lex_asymmetric(a, b, i + 1);
    }
}

/// No string comes before itself.
pub proof fn lemma_lex_irreflexive(a: Seq<u8>)
    ensures
        !lex_lt(a, a),
{
    if lex_lt(a, a) {
        lemma_lex_asymmetric(a, a, 0);
    }
}

/// The order is transitive.
pub proof fn lemma_lex_transitive(a: Seq<u8>, b: Seq<u8>, c: Seq<u8>, i: int)
    requires
        0 <= i,
        lex_lt_from(a, b, i),
        lex_lt_from(b, c, i),
    ensures
        lex_lt_from(a, c, i),
    decreases c.len() - i,
{
    if i < a.len() && i < b.len() && i < c.len() && a[i] == b[i] && b[i] == c[i] {
        lemma_lex_transitive(a, b, c, i + 1);
    }
}

/// If `a` does not come after `b`, and `b` comes before `c`, then `a` comes before `c`.
pub proof fn lemma_lex_le_lt(a: Seq<u8>, b: Seq<u8>, c: Seq<u8>)
    requires
        !lex_lt(b, a),
        lex_lt(b, c),
    ensures
        lex_lt(a, c),
{
    if lex_lt(a, b) {
        lemma_lex_transitive(a, b, c, 0);
    } else {
        lemma_lex_total(a, b, 0);
    }
}

/// If `a` does not come after `b`, nor `b` after `c`, then `a` does not come after `c`.
pub proof fn lemma_lex_le_le(a: Seq<u8>, b: Seq<u8>, c: Seq<u8>)
    requires
        !lex_lt(b, a),
        !lex_lt(c, b),
    ensures
        !lex_lt(c, a),
{
    if lex_lt(c, a) {
        // then c < a <= b, so c < b
        if lex_lt(a, b) {
            lemma_lex_transitive(c, a, b, 0);
        } else {
            lemma_lex_total(a, b, 0);
        }
    }
}

/// Compares two byte strings.
pub fn order(a: &[u8], b: &[u8]) -> (r: Order)
    ensures
        r == Order::Less <==> lex_lt(a@, b@),
        r == Order::Equal <==> a@ == b@,
        r == Order::Greater <==> lex_lt(b@, a@),
{
    let n: usize = a.len();
    let m: usize = b.len();
    let mut i: usize = 0;
    while i < n && i < m
        invariant
            i <= n,
            i <= m,
            n == a@.len(),
            m == b@.len(),
            forall|k: int| 0 <= k < i ==> a@[k] == b@[k],
            lex_lt(a@, b@) == lex_lt_from(a@, b@, i as int),
            lex_lt(b@, a@) == lex_lt_from(b@, a@, i as int),
        decreases n - i,
    {
        if a[i] < b[i] {
            proof {
                lemma_lex_asymmetric(a@, b@, i as int);
            }
            return Order::Less;
        }
        if a[i] > b[i] {
            proof {
                lemma_lex_asymmetric(b@, a@, i as int);
            }
            return Order::Greater;
        }
        i = i + 1;
    }
    if n < m {
        proof {
            lemma_lex_asymmetric(a@, b@, i as int);
        }
        Order::Less
    } else if n > m {
        proof {
            lemma_lex_asymmetric(b@, a@, i as int);
        }
        Order::Greater
    } else {
        assert(a@ =~= b@);
        Order::Equal
    }
}

/// Whether the strings never step down from one to the next.
pub fn is_ascending(names: &Vec<&[u8]>) -> (r: bool)
    ensures
        r == ascending(names@),
{
    let n: usize = names.len();
    if n == 0 {
        return true;
    }
    let mut i: usize = 1;
    proof {
        lemma_lex_irreflexive(names@[0]@);
    }
    while i < n
        invariant
            1 <= i <= n,
            n == names@.len(),
            forall|p: int, q: int|
                0 <= p <= q < i ==> !lex_lt(#[trigger] names@[q]@, #[trigger] names@[p]@),
        decreases n - i,
    {
        if let Order::Greater = order(names[i - 1], names[i]) {
            return false;
        }
        proof {
            assert forall|p: int, q: int| 0 <= p <= q < i + 1 implies !lex_lt(
                #[trigger] names@[q]@,
                #[trigger] names@[p]@,
            ) by {
                if q == i {
                    if p < i {
                        lemma_lex_le_le(names@[p]@, names@[i - 1]@, names@[i as int]@);
                    } else {
                        lemma_lex_irreflexive(names@[q]@);
                    }
                }
            }
        }
        i = i + 1;
    }
    true
}

} // verus!
