//! Lists in which items are looked for and dropped.
use vstd::prelude::*;

use crate::text::same;

verus! {

/// The items other than `x`.
pub open spec fn without<A>(items: Seq<A>, x: A) -> Seq<A>
    decreases items.len(),
{
    if items.len() == 0 {
        seq![]
    } else if items.last() == x {
        without(items.drop_last(), x)
    } else {
        without(items.drop_last(), x).push(items.last())
    }
}

/// Whether a text is among others.
pub fn has_text(items: &Vec<String>, s: &str) -> (r: bool)
    ensures
        r == items.deep_view().contains(s@),
{
    let ghost all = items.deep_view();
    for i in 0..items.len()
        invariant
            all == items.deep_view(),
            forall|j: int| 0 <= j < i ==> all[j] != s@,
    {
        assert(all[i as int] == items@[i as int]@);
        if same(items[i].as_str(), s) {
            return true;
        }
    }
    false
}

/// The texts other than `s`.
pub fn without_text(items: &Vec<String>, s: &str) -> (r: Vec<String>)
    ensures
        r.deep_view() == without(items.deep_view(), s@),
{
    let ghost all = items.deep_view();
    let mut out: Vec<String> = Vec::new();
    assert(out.deep_view() =~= without(all.take(0), s@));
    for i in 0..items.len()
        invariant
            all == items.deep_view(),
            out.deep_view() == without(all.take(i as int), s@),
    {
        assert(all.take(i + 1).drop_last() =~= all.take(i as int));
        let ghost before = out.deep_view();
        if !same(items[i].as_str(), s) {
            out.push(items[i].clone());
            assert(out.deep_view() =~= before.push(all[i as int]));
        }
    }
    assert(all.take(all.len() as int) =~= all);
    out
}

/// Whether a port is among others.
pub fn has_port(items: &Vec<u16>, p: u16) -> (r: bool)
    ensures
        r == items@.contains(p),
{
    for i in 0..items.len()
        invariant
            forall|j: int| 0 <= j < i ==> items@[j] != p,
    {
        if items[i] == p {
            return true;
        }
    }
    false
}

/// The ports other than `p`.
pub fn without_port(items: &Vec<u16>, p: u16) -> (r: Vec<u16>)
    ensures
        r@ == without(items@, p),
{
    let ghost all = items@;
    let mut out: Vec<u16> = Vec::new();
    for i in 0..items.len()
        invariant
            all == items@,
            out@ == without(all.take(i as int), p),
    {
        assert(all.take(i + 1).drop_last() =~= all.take(i as int));
        if items[i] != p {
            out.push(items[i]);
        }
    }
    assert(all.take(all.len() as int) =~= all);
    out
}

/// What is left of a list after an item was dropped holds every other item and
/// not that one.
pub proof fn lemma_without<A>(items: Seq<A>, x: A, y: A)
    ensures
        without(items, x).contains(y) <==> items.contains(y) && y != x,
    decreases items.len(),
{
    if items.len() > 0 {
        let rest = items.drop_last();
        lemma_without(rest, x, y);
        if items.contains(y) {
            let i = choose|i: int| 0 <= i < items.len() && items[i] == y;
            if i < rest.len() {
                assert(rest[i] == y);
            }
        }
        if rest.contains(y) {
            let i = choose|i: int| 0 <= i < rest.len() && rest[i] == y;
            assert(items[i] == y);
        }
        let out = without(rest, x);
        if items.last() != x {
            assert(out.push(items.last()).last() == items.last());
            if out.contains(y) {
                let i = choose|i: int| 0 <= i < out.len() && out[i] == y;
                assert(out.push(items.last())[i] == y);
            }
            if out.push(items.last()).contains(y) {
                let i = choose|i: int|
                    0 <= i < out.push(items.last()).len() && out.push(items.last())[i] == y;
                if i < out.len() {
                    assert(out[i] == y);
                }
            }
            assert(items[items.len() - 1] == items.last());
        }
    }
}

} // verus!
