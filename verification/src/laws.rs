//! What holds of receipts whatever their contents.

use crate::decimal::Dec;
use crate::model::{
    any_proportional, basis_besides, column, derived_ratio, edited_item, has_basis, known,
    lemma_running_total_same, orphans, plus, proportional_share, proportional_shares, refreshable,
    refreshed, refreshed_item, restricted_total_upto, round2, standing, standing_upto, standings,
    total, ItemView, ReceiptView,
};
use crate::resolver::{candidates, first_candidate, meaning, resolved, resolve_upto, Resolving};
use crate::text::{abbreviates, lemma_first_index};
use vstd::arithmetic::div_mod::{lemma_fundamental_div_mod, lemma_mod_pos_bound};
use vstd::arithmetic::power::{lemma_pow_positive, pow};
use vstd::prelude::*;

verus! {

/// The row of an item ends in the item's value: in the split table, the last
/// cell of the row of every item is what the item costs.
pub proof fn law_item_row_ends_in_value(receipt: ReceiptView, i: int)
    requires
        0 <= i < receipt.items.len(),
    ensures
        receipt.table()[i].last() == Some(receipt.items[i].value),
        receipt.table_known() ==> receipt.split_rows()[i].last() == receipt.items[i].value,
{
    assert(receipt.table()[i] == receipt.item_row(i));
}

/// The row of totals ends in what the items and the leftover add up to: the
/// last cell of the split table is the sum of the items' values, with the
/// leftover added where it has a row, rounded to cents.
pub proof fn law_total_row_adds_values_and_leftover(receipt: ReceiptView)
    ensures
        receipt.table().last().last() == round2(
            if receipt.shows_leftover() {
                plus(receipt.itemized_total(), receipt.leftover())
            } else {
                receipt.itemized_total()
            },
        ),
{
    let n = receipt.shared_by.len() as int;
    let k = receipt.items.len() as int;
    let body = receipt.body();
    let last = column(body, n);
    let values = known(receipt.item_values());
    assert(receipt.table().last() == receipt.total_row());
    assert(receipt.total_row().last() == round2(total(last)));
    assert forall|i: int| 0 <= i < k implies last[i] == values[i] by {
        assert(body[i] == receipt.item_row(i));
    }
    lemma_running_total_same(last, values, k);
    if receipt.shows_leftover() {
        assert(body[k] == receipt.leftover_row());
        assert(last[k] == receipt.leftover());
    }
}

/// Rounding moves a decimal by at most half a unit of the last digit that is
/// kept: a decimal with more than `dp` fractional digits comes back with `dp`
/// of them, and twice the distance between the two is no more than one unit
/// of the last digit kept. A cell of the split table is therefore within half
/// a cent of what was rounded.
pub proof fn law_rounding_stays_within_half_a_unit(d: Dec, dp: nat)
    requires
        d.scale > dp,
    ensures
        d.rounded(dp).scale == dp,
        -pow(10, (d.scale - dp) as nat) <= 2 * (d.rounded(dp).mantissa * pow(
            10,
            (d.scale - dp) as nat,
        ) - d.mantissa) <= pow(10, (d.scale - dp) as nat),
{
    let unit = pow(10, (d.scale - dp) as nat);
    let size = d.magnitude();
    let whole = size / unit;
    let rest = size % unit;
    lemma_pow_positive(10, (d.scale - dp) as nat);
    lemma_fundamental_div_mod(size, unit);
    lemma_mod_pos_bound(size, unit);
    let nearest = if 2 * rest > unit || (2 * rest == unit && whole % 2 == 1) {
        whole + 1
    } else {
        whole
    };
    assert(size == unit * whole + rest);
    assert(nearest * unit - size == if nearest == whole {
        -rest
    } else {
        unit - rest
    }) by (nonlinear_arith)
        requires
            size == unit * whole + rest,
            nearest == whole || nearest == whole + 1,
    ;
    assert((-nearest) * unit == -(nearest * unit)) by (nonlinear_arith);
}

/// Rounding again changes nothing.
pub proof fn law_rounding_is_idempotent(d: Dec, dp: nat)
    ensures
        d.rounded(dp).rounded(dp) == d.rounded(dp),
{
}

/// Whether two lists of items agree in everything but the weights of their
/// proportional items.
pub open spec fn same_but_derived(a: Seq<ItemView>, b: Seq<ItemView>) -> bool {
    &&& a.len() == b.len()
    &&& forall|i: int|
        0 <= i < a.len() ==> if (#[trigger] a[i]).is_prop_dist {
            b[i] == (ItemView { share_ratio: b[i].share_ratio, ..a[i] })
        } else {
            b[i] == a[i]
        }
}

/// The standings over the items split by ratio do not look at the weights of
/// the proportional items.
pub proof fn lemma_standing_ignores_derived(
    a: Seq<ItemView>,
    b: Seq<ItemView>,
    n: int,
    person: Seq<char>,
)
    requires
        same_but_derived(a, b),
        n <= a.len(),
    ensures
        standing_upto(a, n, person, true) == standing_upto(b, n, person, true),
    decreases n,
{
    if n > 0 {
        lemma_standing_ignores_derived(a, b, n - 1, person);
        assert(a[n - 1].is_prop_dist == b[n - 1].is_prop_dist);
    }
}

/// The restricted total does not look at the weights of the proportional
/// items.
pub proof fn lemma_restricted_total_ignores_derived(
    people: Seq<Seq<char>>,
    a: Seq<ItemView>,
    b: Seq<ItemView>,
    shared_by: Seq<Seq<char>>,
    n: int,
)
    requires
        same_but_derived(a, b),
    ensures
        restricted_total_upto(people, a, shared_by, n) == restricted_total_upto(
            people,
            b,
            shared_by,
            n,
        ),
    decreases n,
{
    if n > 0 {
        lemma_restricted_total_ignores_derived(people, a, b, shared_by, n - 1);
        lemma_standing_ignores_derived(a, b, a.len() as int, people[n - 1]);
    }
}

/// The weights derived for a proportional item do not look at the weights of
/// the proportional items.
pub proof fn lemma_derived_ratio_ignores_derived(
    people: Seq<Seq<char>>,
    a: Seq<ItemView>,
    b: Seq<ItemView>,
    shared_by: Seq<Seq<char>>,
    value: Dec,
)
    requires
        same_but_derived(a, b),
    ensures
        derived_ratio(people, a, shared_by, value) == derived_ratio(people, b, shared_by, value),
{
    assert(standings(people, a, true) =~= standings(people, b, true)) by {
        assert forall|j: int| 0 <= j < people.len() implies standing(a, people[j], true)
            == standing(b, people[j], true) by {
            lemma_standing_ignores_derived(a, b, a.len() as int, people[j]);
        }
    }
    lemma_restricted_total_ignores_derived(people, a, b, shared_by, people.len() as int);
    assert(proportional_shares(people, a, shared_by, value) =~= proportional_shares(
        people,
        b,
        shared_by,
        value,
    )) by {
        assert forall|k: int| 0 <= k < shared_by.len() implies proportional_share(
            people,
            a,
            shared_by,
            value,
            k,
        ) == proportional_share(people, b, shared_by, value, k) by {
            lemma_standing_ignores_derived(a, b, a.len() as int, shared_by[k]);
        }
    }
}

/// Recalculating twice gives what recalculating once gives: where a receipt
/// can be recalculated, the recalculated items can be recalculated again, and
/// stay as they are.
pub proof fn law_recalculation_is_idempotent(people: Seq<Seq<char>>, items: Seq<ItemView>)
    requires
        refreshable(people, items),
    ensures
        refreshable(people, refreshed(people, items)),
        refreshed(people, refreshed(people, items)) == refreshed(people, items),
{
    let once = refreshed(people, items);
    assert(same_but_derived(items, once)) by {
        assert forall|i: int| 0 <= i < items.len() implies if (#[trigger] items[i]).is_prop_dist {
            once[i] == (ItemView { share_ratio: once[i].share_ratio, ..items[i] })
        } else {
            once[i] == items[i]
        } by {
            assert(refreshed_item(people, items, items[i]) is Some);
        }
    }
    assert forall|i: int| 0 <= i < once.len() implies refreshed_item(people, once, #[trigger] once[i])
        == Some(once[i]) by {
        assert(refreshed_item(people, items, items[i]) is Some);
        lemma_derived_ratio_ignores_derived(people, items, once, items[i].shared_by, items[i].value);
    }
    assert(refreshed(people, once) =~= once);
}

/// Recalculating leaves alone whether an item is proportional.
pub proof fn law_recalculation_keeps_basis(people: Seq<Seq<char>>, items: Seq<ItemView>)
    requires
        refreshable(people, items),
        has_basis(items),
    ensures
        has_basis(refreshed(people, items)),
{
    let after = refreshed(people, items);
    assert forall|i: int| 0 <= i < items.len() implies (#[trigger] after[i]).is_prop_dist
        == items[i].is_prop_dist by {
        assert(refreshed_item(people, items, items[i]) is Some);
    }
    if any_proportional(after) {
        let p = choose|i: int| 0 <= i < after.len() && (#[trigger] after[i]).is_prop_dist;
        assert(items[p].is_prop_dist);
        let q = choose|i: int| 0 <= i < items.len() && !(#[trigger] items[i]).is_prop_dist;
        assert(!after[q].is_prop_dist);
    }
}

/// An accepted update keeps the basis: if the proportional items had an item
/// split by ratio to follow before, and the item is only made proportional
/// where another item is split by ratio, they have one afterwards.
pub proof fn law_update_keeps_basis(
    people: Seq<Seq<char>>,
    items: Seq<ItemView>,
    index: int,
    value: Option<Dec>,
    name: Option<Seq<char>>,
    shared_by: Option<Seq<Seq<char>>>,
    is_prop_dist: Option<bool>,
)
    requires
        0 <= index < items.len(),
        has_basis(items),
        is_prop_dist == Some(true) ==> basis_besides(items, index),
    ensures
        has_basis(
            items.update(
                index,
                edited_item(people, items[index], value, name, shared_by, is_prop_dist),
            ),
        ),
{
    let edited = edited_item(people, items[index], value, name, shared_by, is_prop_dist);
    let after = items.update(index, edited);
    if any_proportional(after) {
        if is_prop_dist == Some(true) {
            let q = choose|i: int|
                0 <= i < items.len() && i != index && !(#[trigger] items[i]).is_prop_dist;
            assert(!after[q].is_prop_dist);
        } else if is_prop_dist == Some(false) {
            assert(!after[index].is_prop_dist);
        } else {
            let p = choose|i: int| 0 <= i < after.len() && (#[trigger] after[i]).is_prop_dist;
            assert(items[p].is_prop_dist);
            let q = choose|i: int| 0 <= i < items.len() && !(#[trigger] items[i]).is_prop_dist;
            assert(!after[q].is_prop_dist);
        }
    }
}

/// An accepted removal keeps the basis: unless the item is the last one split
/// by ratio while a proportional item needs it, the proportional items that
/// are left have an item split by ratio to follow.
pub proof fn law_removal_keeps_basis(items: Seq<ItemView>, index: int)
    requires
        0 <= index < items.len(),
        has_basis(items),
        !orphans(items, index),
    ensures
        has_basis(items.remove(index)),
{
    let after = items.remove(index);
    if any_proportional(after) {
        let p = choose|i: int| 0 <= i < after.len() && (#[trigger] after[i]).is_prop_dist;
        assert(after[p] == if p < index { items[p] } else { items[p + 1] });
        assert(any_proportional(items)) by {
            if p < index {
                assert(items[p].is_prop_dist);
            } else {
                assert(items[p + 1].is_prop_dist);
            }
        }
        let q = choose|i: int| 0 <= i < items.len() && !(#[trigger] items[i]).is_prop_dist;
        if q != index {
            let q2 = if q < index { q } else { q - 1 };
            assert(after[q2] == items[q]);
            assert(!after[q2].is_prop_dist);
        } else {
            let r = choose|i: int|
                0 <= i < items.len() && i != index && !(#[trigger] items[i]).is_prop_dist;
            let r2 = if r < index { r } else { r - 1 };
            assert(after[r2] == items[r]);
            assert(!after[r2].is_prop_dist);
        }
    }
}

/// Whether no character stands in the names of two of the people.
pub open spec fn disjoint_names(people: Seq<Seq<char>>) -> bool {
    forall|j: int, k: int, c: char|
        0 <= j < people.len() && 0 <= k < people.len() && j != k && people[j].contains(c)
            ==> !people[k].contains(c)
}

/// Where no character stands in the names of two of the people, an
/// abbreviation that is not empty and made of the characters of one name
/// resolves to that person, and to nobody else: asked for alone, and not
/// learned before, it is learned for that person.
pub proof fn law_abbreviation_finds_its_owner(
    people: Seq<Seq<char>>,
    learned: Seq<(Seq<char>, Seq<char>)>,
    abbrev: Seq<char>,
    owner: int,
)
    requires
        0 <= owner < people.len(),
        disjoint_names(people),
        abbrev.len() > 0,
        abbreviates(abbrev, people[owner]),
        meaning(learned, abbrev) is None,
    ensures
        forall|j: int| 0 <= j < people.len() && j != owner ==> !abbreviates(abbrev, people[j]),
        first_candidate(people, Seq::empty(), abbrev) == Some(owner),
        resolved(people, learned, seq![abbrev]) == (Resolving {
            learned: learned.push((abbrev, people[owner])),
            claimed: seq![people[owner]],
            failure: None,
        }),
{
    let nobody = Seq::<Seq<char>>::empty();
    assert forall|j: int| 0 <= j < people.len() && j != owner implies !abbreviates(
        abbrev,
        people[j],
    ) by {
        assert(people[owner].contains(abbrev[0]));
        if abbreviates(abbrev, people[j]) {
            assert(people[j].contains(abbrev[0]));
        }
    }
    let open = candidates(people, nobody, abbrev);
    assert(open[owner]);
    lemma_first_index(open, true, owner);
    let start = resolve_upto(people, learned, seq![abbrev], 0);
    assert(start == Resolving { learned, claimed: nobody, failure: None });
    assert(seq![abbrev][0] == abbrev);
    assert(nobody.push(people[owner]) =~= seq![people[owner]]);
}

} // verus!
