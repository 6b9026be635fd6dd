//! The selection set: the candidates the user has explicitly toggled.
//!
//! Selection goes by candidate value, not by position in the match
//! list, and the order in which values were toggled is kept, because
//! the final result lists explicit selections in that order.

use vstd::prelude::*;
use crate::rank::views_of;

verus! {

/// Membership of a value in a selection, by value equality.
pub open spec fn sel_contains(sel: Seq<Seq<char>>, v: Seq<char>) -> bool {
    exists|j: int| 0 <= j < sel.len() && sel[j] == v
}

/// No candidate value is selected twice.
pub open spec fn sel_distinct(sel: Seq<Seq<char>>) -> bool {
    forall|j: int, k: int| 0 <= j < k < sel.len() ==> sel[j] != sel[k]
}

/// One toggle: remove the value's first occurrence if it is selected,
/// append it otherwise.
pub open spec fn spec_toggle(sel: Seq<Seq<char>>, v: Seq<char>) -> Seq<Seq<char>> {
    if sel_contains(sel, v) {
        sel.remove_value(v)
    } else {
        sel.push(v)
    }
}

/// Whether `item` is currently selected.
pub fn is_selected(sel: &Vec<String>, item: &String) -> (r: bool)
    ensures
        r == sel_contains(views_of(sel@), item@),
{
    let mut j: usize = 0;
    while j < sel.len()
        invariant
            j <= sel@.len(),
            forall|k: int| 0 <= k < j ==> views_of(sel@)[k] != item@,
        decreases sel@.len() - j,
    {
        if sel[j].eq(item) {
            proof {
                assert(views_of(sel@)[j as int] == item@);
            }
            return true;
        }
        j = j + 1;
    }
    false
}

/// Toggle `item` in the selection; reports whether it was added.
pub fn toggle(sel: &mut Vec<String>, item: &String) -> (added: bool)
    ensures
        views_of(final(sel)@) == spec_toggle(views_of(old(sel)@), item@),
        added == !sel_contains(views_of(old(sel)@), item@),
        sel_distinct(views_of(old(sel)@)) ==> sel_distinct(views_of(final(sel)@)),
{
    let ghost old_views = views_of(old(sel)@);
    let mut j: usize = 0;
    while j < sel.len()
        invariant
            j <= sel@.len(),
            sel@ == old(sel)@,
            forall|k: int| 0 <= k < j ==> old_views[k] != item@,
            old_views == views_of(old(sel)@),
        decreases sel@.len() - j,
    {
        if sel[j].eq(item) {
            proof {
                assert(old_views[j as int] == item@);
                old_views.index_of_first_ensures(item@);
                let f = old_views.index_of_first(item@);
                match f {
                    Option::Some(i) => {
                        assert(old_views[i] == item@);
                        assert(i == j as int);
                    },
                    Option::None => {
                        assert(old_views.contains(item@));
                        assert(false);
                    },
                }
            }
            sel.remove(j);
            proof {
                assert(views_of(sel@) =~= old_views.remove(j as int)) by {
                    assert forall|k: int| 0 <= k < sel@.len() implies views_of(sel@)[k]
                        == old_views.remove(j as int)[k] by {
                        old_views.remove_ensures(j as int);
                    }
                }
                assert(spec_toggle(old_views, item@) == old_views.remove(j as int));
                assert(sel_contains(old_views, item@));
                if sel_distinct(old_views) {
                    assert forall|a: int, b: int|
                        0 <= a < b < views_of(sel@).len() implies views_of(sel@)[a] != views_of(
                        sel@,
                    )[b] by {
                        old_views.remove_ensures(j as int);
                    }
                }
            }
            return false;
        }
        j = j + 1;
    }
    sel.push(item.clone());
    proof {
        assert(!sel_contains(old_views, item@));
        assert(views_of(sel@) =~= old_views.push(item@));
        if sel_distinct(old_views) {
            assert forall|a: int, b: int|
                0 <= a < b < views_of(sel@).len() implies views_of(sel@)[a] != views_of(sel@)[b] by {
                if b == views_of(sel@).len() - 1 {
                    assert(views_of(sel@)[a] == old_views[a]);
                }
            }
        }
    }
    true
}

/// A toggle never selects a candidate value twice.
pub proof fn lemma_spec_toggle_distinct(sel: Seq<Seq<char>>, v: Seq<char>)
    requires
        sel_distinct(sel),
    ensures
        sel_distinct(spec_toggle(sel, v)),
{
    if sel_contains(sel, v) {
        sel.index_of_first_ensures(v);
        let i = sel.index_of_first(v)->Some_0;
        sel.remove_ensures(i);
        let cut = sel.remove(i);
        assert forall|a: int, b: int| 0 <= a < b < cut.len() implies cut[a] != cut[b] by {
            if b < i {
            } else if a < i {
                assert(cut[b] == sel[b + 1]);
            } else {
                assert(cut[a] == sel[a + 1]);
                assert(cut[b] == sel[b + 1]);
            }
        }
    } else {
        let grown = sel.push(v);
        assert forall|a: int, b: int| 0 <= a < b < grown.len() implies grown[a] != grown[b] by {
            if b == grown.len() - 1 {
                assert(grown[a] == sel[a]);
            }
        }
    }
}

/// Toggling the same candidate twice restores the selection as a set;
/// when the candidate was not yet selected, it restores it exactly.
pub proof fn lemma_toggle_twice(sel: Seq<Seq<char>>, v: Seq<char>)
    requires
        sel_distinct(sel),
    ensures
        spec_toggle(spec_toggle(sel, v), v).to_set() == sel.to_set(),
        !sel_contains(sel, v) ==> spec_toggle(spec_toggle(sel, v), v) == sel,
{
    broadcast use vstd::seq_lib::group_seq_properties;

    if sel_contains(sel, v) {
        sel.index_of_first_ensures(v);
        let i = sel.index_of_first(v)->Some_0;
        let once = sel.remove(i);
        sel.remove_ensures(i);
        assert(spec_toggle(sel, v) == once);
        assert(!sel_contains(once, v)) by {
            if sel_contains(once, v) {
                let k = choose|k: int| 0 <= k < once.len() && once[k] == v;
                if k < i {
                    assert(sel[k] == v);
                } else {
                    assert(sel[k + 1] == v);
                }
            }
        }
        assert(spec_toggle(once, v) == once.push(v));
        assert(once.push(v).to_set() =~= sel.to_set()) by {
            assert forall|x: Seq<char>| once.push(v).to_set().contains(x) implies sel.to_set().contains(
                x,
            ) by {
                assert(once.push(v).contains(x));
                let k = choose|k: int| 0 <= k < once.push(v).len() && once.push(v)[k] == x;
                if k == once.len() {
                    assert(sel[i] == x);
                } else if k < i {
                    assert(sel[k] == x);
                } else {
                    assert(sel[k + 1] == x);
                }
            }
            assert forall|x: Seq<char>| sel.to_set().contains(x) implies once.push(v).to_set().contains(
                x,
            ) by {
                assert(sel.contains(x));
                let k = choose|k: int| 0 <= k < sel.len() && sel[k] == x;
                if k == i {
                    assert(once.push(v)[once.len() as int] == x);
                } else if k < i {
                    assert(once.push(v)[k] == x);
                } else {
                    assert(once.push(v)[k - 1] == x);
                }
            }
        }
    } else {
        let grown = sel.push(v);
        assert(sel_contains(grown, v)) by {
            assert(grown[sel.len() as int] == v);
        }
        grown.index_of_first_ensures(v);
        let i = grown.index_of_first(v)->Some_0;
        assert(i == sel.len()) by {
            assert(grown[i] == v);
            if i < sel.len() {
                assert(sel[i] == v);
            }
        }
        assert(spec_toggle(grown, v) == grown.remove(i));
        assert(grown.remove(i) =~= sel) by {
            grown.remove_ensures(i);
        }
    }
}

} // verus!
