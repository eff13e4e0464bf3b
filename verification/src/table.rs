//! Tables of named texts, kept in the order of their names.
use vstd::prelude::*;

use crate::text;
use crate::text::{same, text_less};

verus! {

/// A name and its text.
pub type Entry = (Seq<char>, Seq<char>);

/// The table with a name set to a text: in place of what the name had, or
/// before the first name that follows it.
pub open spec fn insert_spec(t: Seq<Entry>, k: Seq<char>, v: Seq<char>) -> Seq<Entry>
    decreases t.len(),
{
    if t.len() == 0 {
        seq![(k, v)]
    } else if t[0].0 == k {
        seq![(k, v)] + t.skip(1)
    } else if text::text_lt(k, t[0].0) {
        seq![(k, v)] + t
    } else {
        seq![t[0]] + insert_spec(t.skip(1), k, v)
    }
}

/// The table with each entry of `more` set in turn.
pub open spec fn insert_all_spec(t: Seq<Entry>, more: Seq<Entry>) -> Seq<Entry>
    decreases more.len(),
{
    if more.len() == 0 {
        t
    } else {
        insert_spec(insert_all_spec(t, more.drop_last()), more.last().0, more.last().1)
    }
}

/// The names follow each other strictly in the order of code points.
pub open spec fn sorted(t: Seq<Entry>) -> bool {
    forall|i: int, j: int| 0 <= i < j < t.len() ==> text::text_lt(t[i].0, t[j].0)
}

/// The text of a name.
pub open spec fn get(t: Seq<Entry>, k: Seq<char>) -> Option<Seq<char>>
    decreases t.len(),
{
    if t.len() == 0 {
        None
    } else if t[0].0 == k {
        Some(t[0].1)
    } else {
        get(t.skip(1), k)
    }
}

/// Sets a name to a text.
pub fn insert(t: &mut Vec<(String, String)>, k: &str, v: &str)
    ensures
        final(t).deep_view() == insert_spec(old(t).deep_view(), k@, v@),
{
    let ghost all = t.deep_view();
    let mut i: usize = 0;
    assert(all.skip(0) =~= all);
    assert(all.take(0) + insert_spec(all.skip(0), k@, v@) =~= insert_spec(all, k@, v@));
    while i < t.len()
        invariant
            all == t.deep_view(),
            t.deep_view() == old(t).deep_view(),
            i <= t@.len(),
            all.take(i as int) + insert_spec(all.skip(i as int), k@, v@) == insert_spec(
                all,
                k@,
                v@,
            ),
        decreases t@.len() - i,
    {
        let ghost here = all.skip(i as int);
        assert(here[0] == all[i as int]);
        assert(here.skip(1) =~= all.skip(i + 1));
        if same(t[i].0.as_str(), k) {
            t.set(i, (k.to_string(), v.to_string()));
            assert(t.deep_view() =~= all.take(i as int) + (seq![(k@, v@)] + here.skip(1)));
            return;
        }
        if text_less(k, t[i].0.as_str()) {
            t.insert(i, (k.to_string(), v.to_string()));
            assert(t.deep_view() =~= all.take(i as int) + (seq![(k@, v@)] + here));
            return;
        }
        assert(all.take(i + 1) + insert_spec(all.skip(i + 1), k@, v@) =~= all.take(i as int) + (
        seq![here[0]] + insert_spec(here.skip(1), k@, v@)));
        i += 1;
    }
    t.push((k.to_string(), v.to_string()));
    assert(t.deep_view() =~= all.take(i as int) + seq![(k@, v@)]);
}

/// Sets each entry of `more` in turn.
pub fn insert_all(t: &mut Vec<(String, String)>, more: &Vec<(String, String)>)
    ensures
        final(t).deep_view() == insert_all_spec(old(t).deep_view(), more.deep_view()),
{
    let ghost all = more.deep_view();
    for i in 0..more.len()
        invariant
            all == more.deep_view(),
            t.deep_view() == insert_all_spec(old(t).deep_view(), all.take(i as int)),
    {
        assert(all.take(i + 1).drop_last() =~= all.take(i as int));
        insert(t, more[i].0.as_str(), more[i].1.as_str());
    }
    assert(all.take(all.len() as int) =~= all);
}

/// The text of a name.
pub fn find<'a>(t: &'a Vec<(String, String)>, k: &str) -> (r: Option<&'a str>)
    ensures
        r.deep_view() == get(t.deep_view(), k@),
{
    let ghost all = t.deep_view();
    assert(all.skip(0) =~= all);
    for i in 0..t.len()
        invariant
            all == t.deep_view(),
            get(all, k@) == get(all.skip(i as int), k@),
    {
        assert(all.skip(i as int).skip(1) =~= all.skip(i + 1));
        if same(t[i].0.as_str(), k) {
            return Some(t[i].1.as_str());
        }
    }
    None
}

// ── laws ──────────────────────────────────────────────────────────────────────

/// After a name is set it has that text, and every other name has what it had.
pub proof fn set_name_is_found(t: Seq<Entry>, k: Seq<char>, v: Seq<char>, other: Seq<char>)
    requires
        sorted(t),
    ensures
        get(insert_spec(t, k, v), k) == Some(v),
        other != k ==> get(insert_spec(t, k, v), other) == get(t, other),
    decreases t.len(),
{
    let r = insert_spec(t, k, v);
    if t.len() == 0 {
        assert(r.skip(1) =~= t);
    } else if t[0].0 == k {
        assert(r.skip(1) =~= t.skip(1));
    } else if text::text_lt(k, t[0].0) {
        assert(r.skip(1) =~= t);
    } else {
        assert(r.skip(1) =~= insert_spec(t.skip(1), k, v));
        set_name_is_found(t.skip(1), k, v, other);
    }
}

/// Setting a name keeps a table in order.
pub proof fn setting_keeps_order(t: Seq<Entry>, k: Seq<char>, v: Seq<char>)
    requires
        sorted(t),
    ensures
        sorted(insert_spec(t, k, v)),
        forall|p: Seq<char>|
            (forall|i: int| 0 <= i < t.len() ==> text::text_lt(p, #[trigger] t[i].0))
                && text::text_lt(p, k) ==> (forall|i: int|
                0 <= i < insert_spec(t, k, v).len() ==> text::text_lt(
                    p,
                    #[trigger] insert_spec(t, k, v)[i].0,
                )),
    decreases t.len(),
{
    let r = insert_spec(t, k, v);
    if t.len() == 0 {
    } else if t[0].0 == k {
        assert forall|i: int, j: int| 0 <= i < j < r.len() implies text::text_lt(
            r[i].0,
            r[j].0,
        ) by {
            assert(r[i].0 == t[i].0);
            assert(r[j].0 == t[j].0);
        }
        assert forall|i: int| 0 <= i < r.len() implies r[i].0 == t[i].0 by {}
    } else if text::text_lt(k, t[0].0) {
        assert forall|i: int, j: int| 0 <= i < j < r.len() implies text::text_lt(
            r[i].0,
            r[j].0,
        ) by {
            if i == 0 && j > 1 {
                text::lemma_text_trans(k, t[0].0, t[j - 1].0);
            }
        }
    } else {
        let tail = t.skip(1);
        assert(sorted(tail));
        setting_keeps_order(tail, k, v);
        text::lemma_text_total(k, t[0].0);
        assert forall|i: int| 0 <= i < tail.len() implies text::text_lt(
            t[0].0,
            #[trigger] tail[i].0,
        ) by {
            assert(tail[i] == t[i + 1]);
        }
        let rest = insert_spec(tail, k, v);
        assert forall|i: int, j: int| 0 <= i < j < r.len() implies text::text_lt(
            r[i].0,
            r[j].0,
        ) by {
            if i == 0 {
                assert(r[j].0 == rest[j - 1].0);
            } else {
                assert(r[i] == rest[i - 1]);
                assert(r[j] == rest[j - 1]);
            }
        }
        assert forall|p: Seq<char>|
            (forall|i: int| 0 <= i < t.len() ==> text::text_lt(p, #[trigger] t[i].0))
                && text::text_lt(p, k) implies (forall|i: int|
            0 <= i < r.len() ==> text::text_lt(p, #[trigger] r[i].0)) by {
            assert forall|i: int| 0 <= i < tail.len() implies text::text_lt(
                p,
                #[trigger] tail[i].0,
            ) by {
                assert(tail[i] == t[i + 1]);
            }
            assert forall|i: int| 0 <= i < r.len() implies text::text_lt(
                p,
                #[trigger] r[i].0,
            ) by {
                if i > 0 {
                    assert(r[i] == rest[i - 1]);
                } else {
                    assert(r[0] == t[0]);
                }
            }
        }
    }
}

/// Setting the entries of a table in turn keeps a table in order.
pub proof fn setting_all_keeps_order(t: Seq<Entry>, more: Seq<Entry>)
    requires
        sorted(t),
    ensures
        sorted(insert_all_spec(t, more)),
    decreases more.len(),
{
    if more.len() > 0 {
        setting_all_keeps_order(t, more.drop_last());
        setting_keeps_order(
            insert_all_spec(t, more.drop_last()),
            more.last().0,
            more.last().1,
        );
    }
}

/// What is set later wins: a name that `more` holds has the text that it has
/// there, and any other name has what it had.
pub proof fn later_entries_win(t: Seq<Entry>, more: Seq<Entry>, k: Seq<char>)
    requires
        sorted(t),
        sorted(more),
    ensures
        get(insert_all_spec(t, more), k) == match get(more, k) {
            Some(v) => Some(v),
            None => get(t, k),
        },
    decreases more.len(),
{
    if more.len() > 0 {
        let init = more.drop_last();
        let last = more.last();
        later_entries_win(t, init, k);
        setting_all_keeps_order(t, init);
        set_name_is_found(insert_all_spec(t, init), last.0, last.1, k);
        lemma_get_last(more, k);
    }
}

/// In a table in order, the last entry is the one for its name.
pub proof fn lemma_get_last(t: Seq<Entry>, k: Seq<char>)
    requires
        sorted(t),
        t.len() > 0,
    ensures
        get(t, k) == if k == t.last().0 {
            Some(t.last().1)
        } else {
            get(t.drop_last(), k)
        },
    decreases t.len(),
{
    if t.len() == 1 {
        assert(t.skip(1) =~= seq![]);
        assert(t.drop_last() =~= seq![]);
    } else {
        text::lemma_text_asym(t[0].0, t.last().0);
        assert(sorted(t.skip(1))) by {
            assert forall|i: int, j: int| 0 <= i < j < t.skip(1).len() implies text::text_lt(
                t.skip(1)[i].0,
                t.skip(1)[j].0,
            ) by {
                assert(t.skip(1)[i] == t[i + 1]);
                assert(t.skip(1)[j] == t[j + 1]);
            }
        }
        lemma_get_last(t.skip(1), k);
        assert(t.drop_last().skip(1) =~= t.skip(1).drop_last());
        assert(t.skip(1).last() == t.last());
    }
}

} // verus!
