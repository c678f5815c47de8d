use vstd::prelude::*;
use vstd::string::StringSliceAdditionalSpecFns;

verus! {

/// Byte-wise lexicographic order, the order of `str`: `a` sorts strictly
/// before `b`.
pub open spec fn bytes_lt(a: Seq<u8>, b: Seq<u8>) -> bool
    decreases a.len(),
{
    if b.len() == 0 {
        false
    } else if a.len() == 0 {
        true
    } else if a[0] != b[0] {
        a[0] < b[0]
    } else {
        bytes_lt(a.subrange(1, a.len() as int), b.subrange(1, b.len() as int))
    }
}

proof fn lemma_bytes_lt_irreflexive(a: Seq<u8>)
    ensures
        !bytes_lt(a, a),
    decreases a.len(),
{
    if a.len() > 0 {
        lemma_bytes_lt_irreflexive(a.subrange(1, a.len() as int));
    }
}

proof fn lemma_bytes_lt_total(a: Seq<u8>, b: Seq<u8>)
    ensures
        bytes_lt(a, b) || bytes_lt(b, a) || a == b,
    decreases a.len(),
{
    if a.len() > 0 && b.len() > 0 && a[0] == b[0] {
        let ta = a.subrange(1, a.len() as int);
        let tb = b.subrange(1, b.len() as int);
        lemma_bytes_lt_total(ta, tb);
        if ta == tb {
            assert(a =~= seq![a[0]] + ta);
            assert(b =~= seq![b[0]] + tb);
        }
    } else if a.len() == 0 && b.len() == 0 {
        assert(a =~= b);
    }
}

proof fn lemma_bytes_lt_transitive(a: Seq<u8>, b: Seq<u8>, c: Seq<u8>)
    requires
        bytes_lt(a, b),
        bytes_lt(b, c),
    ensures
        bytes_lt(a, c),
    decreases a.len(),
{
    if a.len() > 0 && b.len() > 0 && c.len() > 0 && a[0] == b[0] && b[0] == c[0] {
        lemma_bytes_lt_transitive(
            a.subrange(1, a.len() as int),
            b.subrange(1, b.len() as int),
            c.subrange(1, c.len() as int),
        );
    }
}

/// Whether string `a` sorts strictly before string `b`.
fn str_lt(a: &str, b: &str) -> (r: bool)
    ensures
        r == bytes_lt(a.spec_bytes(), b.spec_bytes()),
{
    let x = a.as_bytes();
    let y = b.as_bytes();
    let ghost sa = x@;
    let ghost sb = y@;
    let mut i: usize = 0;
    assert(sa.subrange(0, sa.len() as int) =~= sa);
    assert(sb.subrange(0, sb.len() as int) =~= sb);
    while i < x.len() && i < y.len()
        invariant
            x@ == sa,
            y@ == sb,
            sa == a.spec_bytes(),
            sb == b.spec_bytes(),
            i <= sa.len(),
            i <= sb.len(),
            bytes_lt(sa, sb) == bytes_lt(sa.subrange(i as int, sa.len() as int), sb.subrange(
                i as int,
                sb.len() as int,
            )),
        decreases sa.len() - i,
    {
        if x[i] != y[i] {
            let ghost ta = sa.subrange(i as int, sa.len() as int);
            let ghost tb = sb.subrange(i as int, sb.len() as int);
            assert(ta[0] == sa[i as int] && tb[0] == sb[i as int]);
            assert(bytes_lt(ta, tb) == (ta[0] < tb[0]));
            return x[i] < y[i];
        }
        let ghost ta = sa.subrange(i as int, sa.len() as int);
        let ghost tb = sb.subrange(i as int, sb.len() as int);
        assert(ta[0] == tb[0]);
        assert(ta.subrange(1, ta.len() as int) =~= sa.subrange(i + 1, sa.len() as int));
        assert(tb.subrange(1, tb.len() as int) =~= sb.subrange(i + 1, sb.len() as int));
        i = i + 1;
    }
    let ghost ta = sa.subrange(i as int, sa.len() as int);
    let ghost tb = sb.subrange(i as int, sb.len() as int);
    assert(ta.len() == 0 || tb.len() == 0);
    assert(bytes_lt(ta, tb) == (tb.len() > 0));
    i < y.len()
}

/// Location `x` is listed before location `y`: by name, then (a stable sort)
/// by original position.
pub open spec fn listed_before(names: Seq<&str>, x: int, y: int) -> bool {
    bytes_lt(names[x].spec_bytes(), names[y].spec_bytes()) || (names[x].spec_bytes()
        == names[y].spec_bytes() && x < y)
}

/// The order the location menu lists `names` in: sorted by name
/// (byte-wise, as `str` orders), locations of equal name in their original
/// order. Returns the original positions in listing order.
pub fn location_order(names: &Vec<&str>) -> (order: Vec<usize>)
    ensures
        order@.len() == names@.len(),
        forall|k: usize| k < names@.len() ==> #[trigger] order@.contains(k),
        forall|i: int| 0 <= i < order@.len() ==> (#[trigger] order@[i]) < names@.len(),
        forall|i: int, j: int|
            0 <= i < j < order@.len() ==> listed_before(
                names@,
                #[trigger] order@[i] as int,
                #[trigger] order@[j] as int,
            ),
{
    let mut order: Vec<usize> = Vec::new();
    let mut x: usize = 0;
    while x < names.len()
        invariant
            x <= names@.len(),
            order@.len() == x,
            forall|k: usize| k < x ==> #[trigger] order@.contains(k),
            forall|i: int| 0 <= i < order@.len() ==> (#[trigger] order@[i]) < x,
            forall|i: int, j: int|
                0 <= i < j < order@.len() ==> listed_before(
                    names@,
                    #[trigger] order@[i] as int,
                    #[trigger] order@[j] as int,
                ),
        decreases names@.len() - x,
    {
        let name = names[x];
        let mut p: usize = 0;
        while p < order.len() && !str_lt(name, names[order[p]])
            invariant
                x < names@.len(),
                name == names@[x as int],
                p <= order@.len(),
                forall|i: int| 0 <= i < order@.len() ==> (#[trigger] order@[i]) < x,
                forall|q: int|
                    0 <= q < p ==> !bytes_lt(
                        name.spec_bytes(),
                        names@[#[trigger] order@[q] as int].spec_bytes(),
                    ),
            decreases order@.len() - p,
        {
            p = p + 1;
        }
        let ghost before = order@;
        order.insert(p, x);
        proof {
            let n = names@;
            assert forall|i: int| 0 <= i < order@.len() implies (#[trigger] order@[i]) < x + 1 by {
                if i < p {
                    assert(order@[i] == before[i]);
                } else if i > p {
                    assert(order@[i] == before[i - 1]);
                }
            }
            assert forall|k: usize| k < x + 1 implies #[trigger] order@.contains(k) by {
                if k == x {
                    assert(order@[p as int] == x);
                } else {
                    assert(before.contains(k));
                    let i = choose|i: int| 0 <= i < before.len() && before[i] == k;
                    if i < p {
                        assert(order@[i] == k);
                    } else {
                        assert(order@[i + 1] == k);
                    }
                }
            }
            assert forall|i: int, j: int| 0 <= i < j < order@.len() implies listed_before(
                n,
                #[trigger] order@[i] as int,
                #[trigger] order@[j] as int,
            ) by {
                let oi = if i < p {
                    i
                } else {
                    i - 1
                };
                let oj = if j < p {
                    j
                } else {
                    j - 1
                };
                if i != p && j != p {
                    assert(order@[i] == before[oi] && order@[j] == before[oj]);
                    assert(oi < oj);
                } else if i == p {
                    // x goes before everything after it
                    assert(order@[j] == before[oj]);
                    let first = before[p as int] as int;
                    assert(bytes_lt(n[x as int].spec_bytes(), n[first].spec_bytes()));
                    if oj > p {
                        assert(listed_before(n, first, before[oj] as int));
                        if bytes_lt(n[first].spec_bytes(), n[before[oj] as int].spec_bytes()) {
                            lemma_bytes_lt_transitive(
                                n[x as int].spec_bytes(),
                                n[first].spec_bytes(),
                                n[before[oj] as int].spec_bytes(),
                            );
                        }
                    }
                } else {
                    // everything before x has a name not after x's, and a smaller position
                    assert(order@[i] == before[oi]);
                    let y = before[oi] as int;
                    assert(!bytes_lt(n[x as int].spec_bytes(), n[y].spec_bytes()));
                    lemma_bytes_lt_total(n[x as int].spec_bytes(), n[y].spec_bytes());
                }
            }
        }
        x = x + 1;
    }
    order
}

/// Listing order is a strict total order on positions: no two locations tie.
pub proof fn lemma_listing_order_is_strict(names: Seq<&str>, x: int, y: int)
    requires
        x != y,
    ensures
        !(listed_before(names, x, y) && listed_before(names, y, x)),
        listed_before(names, x, y) || listed_before(names, y, x),
{
    lemma_bytes_lt_total(names[x].spec_bytes(), names[y].spec_bytes());
    lemma_bytes_lt_irreflexive(names[x].spec_bytes());
    if bytes_lt(names[x].spec_bytes(), names[y].spec_bytes()) && bytes_lt(
        names[y].spec_bytes(),
        names[x].spec_bytes(),
    ) {
        lemma_bytes_lt_transitive(
            names[x].spec_bytes(),
            names[y].spec_bytes(),
            names[x].spec_bytes(),
        );
    }
}

} // verus!
