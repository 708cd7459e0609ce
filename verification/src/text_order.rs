//! Texts in order.

use crate::text;
use vstd::prelude::*;

verus! {

/// `a` comes before `b`: it is the smaller at the first character that differs, or ends first.
pub open spec fn precedes(a: Seq<char>, b: Seq<char>) -> bool
    decreases a.len(),
{
    if b.len() == 0 {
        false
    } else if a.len() == 0 {
        true
    } else if a[0] != b[0] {
        (a[0] as int) < (b[0] as int)
    } else {
        precedes(a.drop_first(), b.drop_first())
    }
}

/// Each text comes before the later ones, so none stands twice.
pub open spec fn ascending(items: Seq<Seq<char>>) -> bool {
    forall|i: int, j: int| 0 <= i < j < items.len() ==> precedes(items[i], items[j])
}

/// No text comes before itself, and of two different ones one comes first.
pub proof fn lemma_precedes_total(a: Seq<char>, b: Seq<char>)
    ensures
        !precedes(a, a),
        a == b || precedes(a, b) || precedes(b, a),
        !(precedes(a, b) && precedes(b, a)),
    decreases a.len(),
{
    if a.len() > 0 {
        lemma_precedes_total(a.drop_first(), a.drop_first());
        if b.len() > 0 {
            lemma_precedes_total(a.drop_first(), b.drop_first());
            if a[0] == b[0] && a.drop_first() == b.drop_first() {
                assert(a =~= seq![a[0]] + a.drop_first());
                assert(b =~= seq![b[0]] + b.drop_first());
                assert(a == b);
            }
        }
    } else if b.len() == 0 {
        assert(a =~= b);
    }
}

/// What comes before comes before all that follows.
pub proof fn lemma_precedes_transitive(a: Seq<char>, b: Seq<char>, c: Seq<char>)
    requires
        precedes(a, b),
        precedes(b, c),
    ensures
        precedes(a, c),
    decreases a.len(),
{
    if a.len() > 0 && a[0] == b[0] && b[0] == c[0] {
        lemma_precedes_transitive(a.drop_first(), b.drop_first(), c.drop_first());
    }
}

fn smaller(a: char, b: char) -> (r: bool)
    ensures
        r == ((a as int) < (b as int)),
{
    let x: u32 = a as u32;
    let y: u32 = b as u32;
    x < y
}

/// Whether `a` comes before `b`.
pub fn comes_before(a: &str, b: &str) -> (r: bool)
    ensures
        r == precedes(a@, b@),
{
    let x = text::to_chars(a);
    let y = text::to_chars(b);
    let mut i: usize = 0;
    proof {
        assert(a@.skip(0) =~= a@);
        assert(b@.skip(0) =~= b@);
    }
    while i < x.len() && i < y.len()
        invariant
            i <= x@.len(),
            i <= y@.len(),
            x@ == a@,
            y@ == b@,
            precedes(a@, b@) == precedes(a@.skip(i as int), b@.skip(i as int)),
        decreases x@.len() - i,
    {
        proof {
            assert(a@.skip(i as int).drop_first() =~= a@.skip(i + 1));
            assert(b@.skip(i as int).drop_first() =~= b@.skip(i + 1));
        }
        if x[i] != y[i] {
            return smaller(x[i], y[i]);
        }
        i += 1;
    }
    i < y.len()
}

/// Where a text belongs in an ascending list: behind all that come before it.
fn place(items: &Vec<String>, item: &str) -> (p: usize)
    requires
        ascending(text::views(items@)),
    ensures
        p <= items@.len(),
        forall|i: int| 0 <= i < p ==> precedes(#[trigger] items@[i]@, item@),
        forall|i: int| p <= i < items@.len() ==> !precedes(#[trigger] items@[i]@, item@),
{
    let mut p: usize = 0;
    while p < items.len()
        invariant
            p <= items@.len(),
            ascending(text::views(items@)),
            forall|i: int| 0 <= i < p ==> precedes(#[trigger] items@[i]@, item@),
        decreases items@.len() - p,
    {
        if !comes_before(items[p].as_str(), item) {
            proof {
                let v = text::views(items@);
                assert forall|i: int| p <= i < items@.len() implies !precedes(
                    #[trigger] items@[i]@,
                    item@,
                ) by {
                    if precedes(items@[i]@, item@) && i > p {
                        assert(precedes(v[p as int], v[i]));
                        lemma_precedes_transitive(v[p as int], v[i], item@);
                    }
                }
            }
            return p;
        }
        p += 1;
    }
    p
}

/// The texts of a list in order, each once.
pub fn sorted_distinct(items: &Vec<String>) -> (r: Vec<String>)
    ensures
        ascending(text::views(r@)),
        forall|s: Seq<char>| #[trigger]
            text::views(r@).contains(s) <==> text::views(items@).contains(s),
{
    let mut r: Vec<String> = Vec::new();
    let mut k: usize = 0;
    let ghost all = text::views(items@);
    while k < items.len()
        invariant
            k <= items@.len(),
            all == text::views(items@),
            ascending(text::views(r@)),
            forall|s: Seq<char>| #[trigger]
                text::views(r@).contains(s) <==> all.take(k as int).contains(s),
        decreases items@.len() - k,
    {
        let p: usize = place(&r, items[k].as_str());
        let ghost before = text::views(r@);
        let ghost item = items@[k as int]@;
        let here = p < r.len() && text::same_text(r[p].as_str(), items[k].as_str());
        if !here {
            r.insert(p, items[k].clone());
            proof {
                let now = text::views(r@);
                assert(now =~= before.insert(p as int, item));
                assert forall|i: int, j: int| 0 <= i < j < now.len() implies precedes(
                    now[i],
                    now[j],
                ) by {
                    if i == p {
                        let other = before[j - 1];
                        lemma_precedes_total(other, item);
                        if other == item && j - 1 > p {
                            assert(precedes(before[p as int], before[j - 1]));
                        }
                    } else if j == p {
                        assert(now[i] == before[i]);
                    } else {
                        let x = if i < p {
                            i
                        } else {
                            i - 1
                        };
                        let y = if j < p {
                            j
                        } else {
                            j - 1
                        };
                        assert(precedes(before[x], before[y]));
                    }
                }
                assert forall|s: Seq<char>| #[trigger]
                    now.contains(s) <==> before.contains(s) || s == item by {
                    if before.contains(s) {
                        let i = choose|i: int| 0 <= i < before.len() && before[i] == s;
                        assert(now[if i < p {
                            i
                        } else {
                            i + 1
                        }] == s);
                    }
                    assert(now[p as int] == item);
                    if now.contains(s) {
                        let i = choose|i: int| 0 <= i < now.len() && now[i] == s;
                        if i != p {
                            assert(before[if i < p {
                                i
                            } else {
                                i - 1
                            }] == s);
                        }
                    }
                }
            }
        } else {
            proof {
                assert(before[p as int] == item);
                assert(before.contains(item));
            }
        }
        proof {
            let next = all.take(k + 1);
            assert(next =~= all.take(k as int).push(item));
            assert forall|s: Seq<char>| #[trigger]
                text::views(r@).contains(s) <==> next.contains(s) by {
                let old_take = all.take(k as int);
                if old_take.contains(s) {
                    let i = choose|i: int| 0 <= i < old_take.len() && old_take[i] == s;
                    assert(next[i] == s);
                }
                assert(next[k as int] == item);
                if next.contains(s) {
                    let i = choose|i: int| 0 <= i < next.len() && next[i] == s;
                    if i < k {
                        assert(old_take[i] == s);
                    }
                }
                assert(before.contains(s) <==> old_take.contains(s));
            }
        }
        k += 1;
    }
    assert(all.take(k as int) =~= all);
    r
}

/// A list that is in order without repeats is fixed by what stands in it.
pub proof fn law_order_is_unique(a: Seq<Seq<char>>, b: Seq<Seq<char>>)
    requires
        ascending(a),
        ascending(b),
        forall|s: Seq<char>| #[trigger] a.contains(s) <==> b.contains(s),
    ensures
        a == b,
    decreases a.len(),
{
    if a.len() == 0 {
        if b.len() > 0 {
            assert(b.contains(b[0]));
            assert(a.contains(b[0]));
        }
        assert(a =~= b);
    } else {
        assert(a.contains(a[0]));
        assert(b.contains(a[0]));
        let j = choose|j: int| 0 <= j < b.len() && b[j] == a[0];
        assert(b.contains(b[0]));
        assert(a.contains(b[0]));
        let i = choose|i: int| 0 <= i < a.len() && a[i] == b[0];
        lemma_precedes_total(a[0], b[0]);
        assert(a[0] == b[0]) by {
            if i > 0 {
                assert(precedes(a[0], a[i]));
            }
            if j > 0 {
                assert(precedes(b[0], b[j]));
            }
        }
        let x = a.drop_first();
        let y = b.drop_first();
        lemma_precedes_total(a[0], a[0]);
        assert forall|s: Seq<char>| #[trigger] x.contains(s) <==> y.contains(s) by {
            if x.contains(s) {
                let k = choose|k: int| 0 <= k < x.len() && x[k] == s;
                assert(a[k + 1] == s);
                assert(precedes(a[0], a[k + 1]));
                assert(a.contains(s));
                assert(b.contains(s));
                let m = choose|m: int| 0 <= m < b.len() && b[m] == s;
                assert(y[m - 1] == s);
            }
            if y.contains(s) {
                let k = choose|k: int| 0 <= k < y.len() && y[k] == s;
                assert(b[k + 1] == s);
                assert(precedes(b[0], b[k + 1]));
                assert(b.contains(s));
                assert(a.contains(s));
                let m = choose|m: int| 0 <= m < a.len() && a[m] == s;
                assert(x[m - 1] == s);
            }
        }
        law_order_is_unique(x, y);
        assert(a =~= seq![a[0]] + x);
        assert(b =~= seq![b[0]] + y);
    }
}

/// The first character that differs decides, the smaller first; a text comes before every longer one
/// that begins with it.
pub proof fn law_first_difference_decides(
    common: Seq<char>,
    a: char,
    b: char,
    x: Seq<char>,
    y: Seq<char>,
)
    requires
        a != b,
    ensures
        precedes(common.push(a) + x, common.push(b) + y) <==> a < b,
        precedes(common, common.push(a) + x),
        !precedes(common.push(a) + x, common),
    decreases common.len(),
{
    let l = common.push(a) + x;
    let r = common.push(b) + y;
    if common.len() == 0 {
        assert(l[0] == a && r[0] == b);
    } else {
        let rest = common.drop_first();
        assert(l.drop_first() =~= rest.push(a) + x);
        assert(r.drop_first() =~= rest.push(b) + y);
        assert(l[0] == common[0] && r[0] == common[0]);
        law_first_difference_decides(rest, a, b, x, y);
    }
}

} // verus!
