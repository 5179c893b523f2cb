//! Selecting appliances in the order they are shown: single toggles and
//! shift-click ranges between an anchor and a target.
use std::collections::BTreeSet;
use vstd::prelude::*;
use vstd::std_specs::btree::spec_btree_keys_iter;
use vstd::std_specs::iter::IteratorSpec;
use vstd::std_specs::cmp::OrdSpec;

verus! {

broadcast use vstd::laws_cmp::group_laws_cmp, vstd::std_specs::btree::group_btree_axioms;

/// What a range click does to the selection.
#[derive(Clone, Copy, Debug, PartialEq, Eq, Structural)]
pub enum RangeSelection {
    Replace,
    Add,
    Remove,
}

/// Position of the first occurrence of `x` in `s`, or -1.
pub open spec fn first_position(s: Seq<usize>, x: usize) -> int
    decreases s.len(),
{
    if s.len() == 0 {
        -1
    } else if s.last() == x && first_position(s.drop_last(), x) == -1 {
        s.len() - 1
    } else {
        first_position(s.drop_last(), x)
    }
}

proof fn lemma_first_position(s: Seq<usize>, x: usize)
    ensures
        -1 <= first_position(s, x) < s.len(),
        first_position(s, x) >= 0 ==> s[first_position(s, x)] == x,
        forall|j: int| 0 <= j < s.len() && (first_position(s, x) == -1 || j < first_position(s, x)) ==> s[j] != x,
    decreases s.len(),
{
    if s.len() > 0 {
        lemma_first_position(s.drop_last(), x);
        assert forall|j: int| 0 <= j < s.len() && (first_position(s, x) == -1 || j < first_position(s, x)) implies s[j] != x by {
            if j < s.len() - 1 {
                assert(s[j] == s.drop_last()[j]);
            }
        }
    }
}

/// The position of `target` in `indices` (its first occurrence).
pub fn position(indices: &[usize], target: usize) -> (r: Option<usize>)
    ensures
        r matches Some(p) ==> p as int == first_position(indices@, target),
        r is None ==> first_position(indices@, target) == -1,
{
    proof {
        lemma_first_position(indices@, target);
    }
    let mut i: usize = 0;
    while i < indices.len()
        invariant
            0 <= i <= indices@.len(),
            forall|j: int| 0 <= j < i ==> indices@[j] != target,
        decreases indices.len() - i,
    {
        if indices[i] == target {
            proof {
                lemma_first_position(indices@, target);
                lemma_first_position_is(indices@, target, i as int);
            }
            return Some(i);
        }
        i = i + 1;
    }
    proof {
        lemma_first_position_absent(indices@, target);
    }
    None
}

proof fn lemma_first_position_is(s: Seq<usize>, x: usize, i: int)
    requires
        0 <= i < s.len(),
        s[i] == x,
        forall|j: int| 0 <= j < i ==> s[j] != x,
    ensures
        first_position(s, x) == i,
{
    lemma_first_position(s, x);
}

proof fn lemma_first_position_absent(s: Seq<usize>, x: usize)
    requires
        forall|j: int| 0 <= j < s.len() ==> s[j] != x,
    ensures
        first_position(s, x) == -1,
{
    lemma_first_position(s, x);
}

/// The indices a range click covers, and the anchor kept for the next click:
/// from the anchor to the target in shown order (both inclusive) when both are
/// shown, otherwise the target alone.
pub open spec fn click_range(ordered: Seq<usize>, anchor: Option<usize>, target: usize) -> (Set<usize>, usize) {
    let pt = first_position(ordered, target);
    match anchor {
        Some(a) => {
            let pa = first_position(ordered, a);
            if pa >= 0 && pt >= 0 {
                let start = if pa <= pt { pa } else { pt };
                let end = if pa <= pt { pt } else { pa };
                (ordered.subrange(start, end + 1).to_set(), a)
            } else {
                (set![target], target)
            }
        },
        None => (set![target], target),
    }
}

/// The selection after applying `action` with `range`.
pub open spec fn selection_after(selection: Set<usize>, range: Set<usize>, action: RangeSelection) -> Set<usize> {
    match action {
        RangeSelection::Replace => range,
        RangeSelection::Add => selection.union(range),
        RangeSelection::Remove => selection.difference(range),
    }
}

/// Applies a range click and returns the anchor for the next one.
pub fn apply_range_selection(
    selection: &mut BTreeSet<usize>,
    ordered_indices: &[usize],
    anchor: Option<usize>,
    target: usize,
    action: RangeSelection,
) -> (r: usize)
    ensures
        r == click_range(ordered_indices@, anchor, target).1,
        final(selection)@ == selection_after(old(selection)@, click_range(ordered_indices@, anchor, target).0, action),
{
    let ghost range = click_range(ordered_indices@, anchor, target).0;
    let target_position = position(ordered_indices, target);
    let mut start: usize = 0;
    let mut end: usize = 0;
    let mut effective: usize = target;
    let mut ranged = false;
    match anchor {
        Some(a) => match (position(ordered_indices, a), target_position) {
            (Some(pa), Some(pt)) => {
                if pa <= pt {
                    start = pa;
                    end = pt;
                } else {
                    start = pt;
                    end = pa;
                }
                effective = a;
                ranged = true;
            },
            _ => {},
        },
        None => {},
    }
    proof {
        lemma_first_position(ordered_indices@, target);
        if let Some(a) = anchor {
            lemma_first_position(ordered_indices@, a);
        }
        if ranged {
            assert(range == ordered_indices@.subrange(start as int, end + 1).to_set());
        } else {
            assert(range == set![target]);
        }
    }
    if let RangeSelection::Replace = action {
        selection.clear();
    }
    let ghost before = selection@;
    if ranged {
        let mut k: usize = start;
        while k <= end
            invariant
                start <= k <= end + 1,
                end < ordered_indices@.len(),
                selection@ == match action {
                    RangeSelection::Remove => before.difference(ordered_indices@.subrange(start as int, k as int).to_set()),
                    _ => before.union(ordered_indices@.subrange(start as int, k as int).to_set()),
                },
            decreases end + 1 - k,
        {
            let x = ordered_indices[k];
            proof {
                assert(ordered_indices@.subrange(start as int, k + 1) =~= ordered_indices@.subrange(start as int, k as int).push(x));
                ordered_indices@.subrange(start as int, k as int).lemma_push_to_set_commute(x);
            }
            match action {
                RangeSelection::Remove => {
                    selection.remove(&x);
                },
                _ => {
                    selection.insert(x);
                },
            }
            proof {
                assert(selection@ =~= match action {
                    RangeSelection::Remove => before.difference(ordered_indices@.subrange(start as int, k + 1).to_set()),
                    _ => before.union(ordered_indices@.subrange(start as int, k + 1).to_set()),
                });
            }
            k = k + 1;
        }
    } else {
        match action {
            RangeSelection::Remove => {
                selection.remove(&target);
            },
            _ => {
                selection.insert(target);
            },
        }
    }
    proof {
        assert(selection@ =~= selection_after(old(selection)@, range, action));
    }
    effective
}

/// Adds `index` to the selection or takes it out.
pub fn set_selected(selection: &mut BTreeSet<usize>, index: usize, selected: bool)
    ensures
        selected ==> final(selection)@ == old(selection)@.insert(index),
        !selected ==> final(selection)@ == old(selection)@.remove(index),
{
    if selected {
        selection.insert(index);
    } else {
        selection.remove(&index);
    }
}

/// A set of indices is walked in increasing order.
proof fn lemma_keys_increasing(selection: &BTreeSet<usize>)
    ensures
        forall|a: int, b: int|
            0 <= a < b < spec_btree_keys_iter(selection).remaining().len() ==> *spec_btree_keys_iter(
                selection,
            ).remaining()[a] < *spec_btree_keys_iter(selection).remaining()[b],
{
    let rem = spec_btree_keys_iter(selection).remaining();
    assert(vstd::std_specs::btree::increasing_seq(rem));
    assert(vstd::laws_cmp::obeys_cmp::<&usize>());
    vstd::std_specs::btree::axiom_increasing_seq_meaning::<&usize>(rem);
    assert forall|a: int, b: int| 0 <= a < b < rem.len() implies *rem[a] < *rem[b] by {
        assert(OrdSpec::cmp_spec(&rem[a], &rem[b]) is Less);
    }
}

/// The selected indices in increasing order.
pub fn selected_indices(selection: &BTreeSet<usize>) -> (r: Vec<usize>)
    ensures
        r@.to_set() == selection@,
        r@.no_duplicates(),
        forall|a: int, b: int| 0 <= a < b < r@.len() ==> r@[a] < r@[b],
{
    let mut out: Vec<usize> = Vec::new();
    let ghost keys = spec_btree_keys_iter(selection).remaining().unref();
    for x in it: selection.iter()
        invariant
            keys == spec_btree_keys_iter(selection).remaining().unref(),
            it.seq().unref() == keys,
            out@ == keys.take(it.index() as int),
    {
        proof {
            assert(keys.take(it.index() + 1) =~= keys.take(it.index() as int).push(*x));
        }
        out.push(*x);
    }
    proof {
        assert(keys.take(keys.len() as int) =~= keys);
        lemma_keys_increasing(selection);
    }
    out
}

/// Adds every shown appliance to the selection; the range anchor is dropped.
pub fn select_visible(selection: &mut BTreeSet<usize>, anchor: &mut Option<usize>, visible: &[usize])
    ensures
        final(selection)@ == old(selection)@ + visible@.to_set(),
        *final(anchor) is None,
{
    let ghost start = selection@;
    let mut i: usize = 0;
    while i < visible.len()
        invariant
            0 <= i <= visible@.len(),
            selection@ == start + visible@.take(i as int).to_set(),
        decreases visible.len() - i,
    {
        let x = visible[i];
        selection.insert(x);
        proof {
            assert(visible@.take(i + 1) =~= visible@.take(i as int).push(x));
            visible@.take(i as int).lemma_push_to_set_commute(x);
            assert(selection@ =~= start + visible@.take(i + 1).to_set());
        }
        i = i + 1;
    }
    proof {
        assert(visible@.take(visible@.len() as int) =~= visible@);
    }
    *anchor = None;
}

} // verus!
