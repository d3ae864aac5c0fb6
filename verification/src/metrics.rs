use vstd::prelude::*;
use crate::ratio::Ratio;

verus! {

/// Whether a data point falls in the privileged group of one sensitive
/// variable.
#[derive(Clone, Debug)]
pub struct GroupMembership {
    pub variable_name: String,
    pub privileged: bool,
}

/// A classified data point: its label, the model's prediction, and its group
/// for each sensitive variable.
#[derive(Clone, Debug)]
pub struct ClassifiedPoint {
    pub target: bool,
    pub predicted: bool,
    pub groups: Vec<GroupMembership>,
}

/// The kinds of (point, variable) pairs that the metrics count.
#[derive(Clone, Copy, Debug, PartialEq, Eq, Structural)]
pub enum Tally {
    Privileged,
    Unprivileged,
    PrivilegedPositive,
    UnprivilegedPositive,
    PrivilegedTruePositive,
    PrivilegedFalsePositive,
    PrivilegedTrueNegative,
    PrivilegedFalseNegative,
    UnprivilegedTruePositive,
    UnprivilegedFalsePositive,
    UnprivilegedTrueNegative,
    UnprivilegedFalseNegative,
    PrivilegedLabel,
    UnprivilegedLabel,
}

/// Whether a pair with this group, label and prediction is of kind `t`.
pub open spec fn tally_matches(t: Tally, privileged: bool, target: bool, predicted: bool) -> bool {
    match t {
        Tally::Privileged => privileged,
        Tally::Unprivileged => !privileged,
        Tally::PrivilegedPositive => privileged && predicted,
        Tally::UnprivilegedPositive => !privileged && predicted,
        Tally::PrivilegedTruePositive => privileged && target && predicted,
        Tally::PrivilegedFalsePositive => privileged && !target && predicted,
        Tally::PrivilegedTrueNegative => privileged && !target && !predicted,
        Tally::PrivilegedFalseNegative => privileged && target && !predicted,
        Tally::UnprivilegedTruePositive => !privileged && target && predicted,
        Tally::UnprivilegedFalsePositive => !privileged && !target && predicted,
        Tally::UnprivilegedTrueNegative => !privileged && !target && !predicted,
        Tally::UnprivilegedFalseNegative => !privileged && target && !predicted,
        Tally::PrivilegedLabel => privileged && target,
        Tally::UnprivilegedLabel => !privileged && target,
    }
}

/// Whether a pair is of kind `t` (executable form).
fn tally_matches_exec(t: Tally, privileged: bool, target: bool, predicted: bool) -> (res: bool)
    ensures
        res == tally_matches(t, privileged, target, predicted),
{
    match t {
        Tally::Privileged => privileged,
        Tally::Unprivileged => !privileged,
        Tally::PrivilegedPositive => privileged && predicted,
        Tally::UnprivilegedPositive => !privileged && predicted,
        Tally::PrivilegedTruePositive => privileged && target && predicted,
        Tally::PrivilegedFalsePositive => privileged && !target && predicted,
        Tally::PrivilegedTrueNegative => privileged && !target && !predicted,
        Tally::PrivilegedFalseNegative => privileged && target && !predicted,
        Tally::UnprivilegedTruePositive => !privileged && target && predicted,
        Tally::UnprivilegedFalsePositive => !privileged && !target && predicted,
        Tally::UnprivilegedTrueNegative => !privileged && !target && !predicted,
        Tally::UnprivilegedFalseNegative => !privileged && target && !predicted,
        Tally::PrivilegedLabel => privileged && target,
        Tally::UnprivilegedLabel => !privileged && target,
    }
}

/// Among the groups of one point, how many name `name` and are of kind `t`.
pub open spec fn group_count(
    groups: Seq<GroupMembership>,
    name: Seq<char>,
    t: Tally,
    target: bool,
    predicted: bool,
) -> nat
    decreases groups.len(),
{
    if groups.len() == 0 {
        0
    } else {
        group_count(groups.drop_last(), name, t, target, predicted) + if groups.last().variable_name@
            == name && tally_matches(t, groups.last().privileged, target, predicted) {
            1nat
        } else {
            0nat
        }
    }
}

/// Over all points, how many (point, variable) pairs name `name` and are of
/// kind `t`.
pub open spec fn tally_count(points: Seq<ClassifiedPoint>, name: Seq<char>, t: Tally) -> nat
    decreases points.len(),
{
    if points.len() == 0 {
        0
    } else {
        tally_count(points.drop_last(), name, t) + group_count(
            points.last().groups@,
            name,
            t,
            points.last().target,
            points.last().predicted,
        )
    }
}

/// Among the groups of one point, how many name `name`.
pub open spec fn named_count(groups: Seq<GroupMembership>, name: Seq<char>) -> nat
    decreases groups.len(),
{
    if groups.len() == 0 {
        0
    } else {
        named_count(groups.drop_last(), name) + if groups.last().variable_name@ == name {
            1nat
        } else {
            0nat
        }
    }
}

/// Over the points with this label and prediction, how many (point,
/// variable) pairs name `name`.
pub open spec fn pairs_named(points: Seq<ClassifiedPoint>, name: Seq<char>, target: bool, predicted: bool) -> nat
    decreases points.len(),
{
    if points.len() == 0 {
        0
    } else {
        pairs_named(points.drop_last(), name, target, predicted) + if points.last().target == target
            && points.last().predicted == predicted {
            named_count(points.last().groups@, name)
        } else {
            0
        }
    }
}

/// Over all points, how many (point, variable) pairs name `name`.
pub open spec fn all_pairs_named(points: Seq<ClassifiedPoint>, name: Seq<char>) -> nat
    decreases points.len(),
{
    if points.len() == 0 {
        0
    } else {
        all_pairs_named(points.drop_last(), name) + named_count(points.last().groups@, name)
    }
}

/// The eight confusion counts of a variable over all points.
pub open spec fn confusion_total(points: Seq<ClassifiedPoint>, name: Seq<char>) -> nat {
    tally_count(points, name, Tally::PrivilegedTruePositive) + tally_count(points, name, Tally::PrivilegedFalsePositive)
        + tally_count(points, name, Tally::PrivilegedTrueNegative) + tally_count(points, name, Tally::PrivilegedFalseNegative)
        + tally_count(points, name, Tally::UnprivilegedTruePositive) + tally_count(points, name, Tally::UnprivilegedFalsePositive)
        + tally_count(points, name, Tally::UnprivilegedTrueNegative) + tally_count(points, name, Tally::UnprivilegedFalseNegative)
}

proof fn lemma_group_confusion(groups: Seq<GroupMembership>, name: Seq<char>, t: bool, p: bool)
    ensures
        group_count(groups, name, Tally::PrivilegedTruePositive, t, p) + group_count(groups, name, Tally::UnprivilegedTruePositive, t, p)
            == if t && p { named_count(groups, name) } else { 0 },
        group_count(groups, name, Tally::PrivilegedFalsePositive, t, p) + group_count(groups, name, Tally::UnprivilegedFalsePositive, t, p)
            == if !t && p { named_count(groups, name) } else { 0 },
        group_count(groups, name, Tally::PrivilegedTrueNegative, t, p) + group_count(groups, name, Tally::UnprivilegedTrueNegative, t, p)
            == if !t && !p { named_count(groups, name) } else { 0 },
        group_count(groups, name, Tally::PrivilegedFalseNegative, t, p) + group_count(groups, name, Tally::UnprivilegedFalseNegative, t, p)
            == if t && !p { named_count(groups, name) } else { 0 },
    decreases groups.len(),
{
    if groups.len() > 0 {
        lemma_group_confusion(groups.drop_last(), name, t, p);
    }
}

/// Law: the eight confusion counts of a variable (true and false positives
/// and negatives of both groups) cover every (point, variable) pair naming it
/// once: the two groups' true positives add up to the pairs of points that
/// are positive and predicted positive, and likewise for false positives,
/// true negatives and false negatives, so all eight add up to all the pairs
/// naming the variable.
pub proof fn lemma_confusion_counts_cover_pairs(points: Seq<ClassifiedPoint>, name: Seq<char>)
    ensures
        tally_count(points, name, Tally::PrivilegedTruePositive) + tally_count(points, name, Tally::UnprivilegedTruePositive)
            == pairs_named(points, name, true, true),
        tally_count(points, name, Tally::PrivilegedFalsePositive) + tally_count(points, name, Tally::UnprivilegedFalsePositive)
            == pairs_named(points, name, false, true),
        tally_count(points, name, Tally::PrivilegedTrueNegative) + tally_count(points, name, Tally::UnprivilegedTrueNegative)
            == pairs_named(points, name, false, false),
        tally_count(points, name, Tally::PrivilegedFalseNegative) + tally_count(points, name, Tally::UnprivilegedFalseNegative)
            == pairs_named(points, name, true, false),
        all_pairs_named(points, name) == pairs_named(points, name, true, true) + pairs_named(points, name, false, true)
            + pairs_named(points, name, false, false) + pairs_named(points, name, true, false),
        confusion_total(points, name) == all_pairs_named(points, name),
    decreases points.len(),
{
    if points.len() > 0 {
        let last = points.last();
        lemma_confusion_counts_cover_pairs(points.drop_last(), name);
        lemma_group_confusion(last.groups@, name, last.target, last.predicted);
    }
}

/// Among the groups of one point (with this label and prediction), how many
/// name `name` and satisfy `keep(privileged, target, predicted)`.
pub open spec fn group_pairs(
    groups: Seq<GroupMembership>,
    name: Seq<char>,
    target: bool,
    predicted: bool,
    keep: spec_fn(bool, bool, bool) -> bool,
) -> nat
    decreases groups.len(),
{
    if groups.len() == 0 {
        0
    } else {
        group_pairs(groups.drop_last(), name, target, predicted, keep) + if groups.last().variable_name@ == name
            && keep(groups.last().privileged, target, predicted) {
            1nat
        } else {
            0nat
        }
    }
}

/// Over all points, how many (point, variable) pairs name `name` and
/// satisfy `keep(privileged, target, predicted)`.
pub open spec fn count_pairs(points: Seq<ClassifiedPoint>, name: Seq<char>, keep: spec_fn(bool, bool, bool) -> bool) -> nat
    decreases points.len(),
{
    if points.len() == 0 {
        0
    } else {
        count_pairs(points.drop_last(), name, keep) + group_pairs(
            points.last().groups@,
            name,
            points.last().target,
            points.last().predicted,
            keep,
        )
    }
}

proof fn lemma_group_tally_is_count(
    groups: Seq<GroupMembership>,
    name: Seq<char>,
    t: Tally,
    target: bool,
    predicted: bool,
    keep: spec_fn(bool, bool, bool) -> bool,
)
    requires
        forall|b: bool| #[trigger] tally_matches(t, b, target, predicted) == keep(b, target, predicted),
    ensures
        group_count(groups, name, t, target, predicted) == group_pairs(groups, name, target, predicted, keep),
    decreases groups.len(),
{
    if groups.len() > 0 {
        lemma_group_tally_is_count(groups.drop_last(), name, t, target, predicted, keep);
        assert(tally_matches(t, groups.last().privileged, target, predicted) == keep(groups.last().privileged, target, predicted));
    }
}

/// A tally counts exactly the pairs whose group, label and prediction
/// satisfy `keep`, when the tally and `keep` agree on every pair.
proof fn lemma_tally_is_count(points: Seq<ClassifiedPoint>, name: Seq<char>, t: Tally, keep: spec_fn(bool, bool, bool) -> bool)
    requires
        forall|b: bool, tg: bool, pr: bool| #[trigger] tally_matches(t, b, tg, pr) == keep(b, tg, pr),
    ensures
        tally_count(points, name, t) == count_pairs(points, name, keep),
    decreases points.len(),
{
    if points.len() > 0 {
        let last = points.last();
        lemma_tally_is_count(points.drop_last(), name, t, keep);
        lemma_group_tally_is_count(last.groups@, name, t, last.target, last.predicted, keep);
    }
}

/// Law: what each count of the fairness metrics counts, as a condition on a
/// (point, variable) pair of the variable: its group (privileged or not),
/// the point's actual label (`target`) and the model's prediction. The group
/// sizes ignore label and prediction; the positives count positive
/// predictions whatever the label; the label counts count actual positives
/// whatever the prediction; the true and false positives and negatives
/// combine both.
pub proof fn lemma_tallies_count_their_pairs(points: Seq<ClassifiedPoint>, name: Seq<char>)
    ensures
        tally_count(points, name, Tally::Privileged) == count_pairs(points, name, |b: bool, tg: bool, pr: bool| b),
        tally_count(points, name, Tally::Unprivileged) == count_pairs(points, name, |b: bool, tg: bool, pr: bool| !b),
        tally_count(points, name, Tally::PrivilegedPositive) == count_pairs(points, name, |b: bool, tg: bool, pr: bool| b && pr),
        tally_count(points, name, Tally::UnprivilegedPositive) == count_pairs(points, name, |b: bool, tg: bool, pr: bool| !b && pr),
        tally_count(points, name, Tally::PrivilegedLabel) == count_pairs(points, name, |b: bool, tg: bool, pr: bool| b && tg),
        tally_count(points, name, Tally::UnprivilegedLabel) == count_pairs(points, name, |b: bool, tg: bool, pr: bool| !b && tg),
        tally_count(points, name, Tally::PrivilegedTruePositive) == count_pairs(points, name, |b: bool, tg: bool, pr: bool| b && tg && pr),
        tally_count(points, name, Tally::PrivilegedFalsePositive) == count_pairs(points, name, |b: bool, tg: bool, pr: bool| b && !tg && pr),
        tally_count(points, name, Tally::PrivilegedTrueNegative) == count_pairs(points, name, |b: bool, tg: bool, pr: bool| b && !tg && !pr),
        tally_count(points, name, Tally::PrivilegedFalseNegative) == count_pairs(points, name, |b: bool, tg: bool, pr: bool| b && tg && !pr),
        tally_count(points, name, Tally::UnprivilegedTruePositive) == count_pairs(points, name, |b: bool, tg: bool, pr: bool| !b && tg && pr),
        tally_count(points, name, Tally::UnprivilegedFalsePositive) == count_pairs(points, name, |b: bool, tg: bool, pr: bool| !b && !tg && pr),
        tally_count(points, name, Tally::UnprivilegedTrueNegative) == count_pairs(points, name, |b: bool, tg: bool, pr: bool| !b && !tg && !pr),
        tally_count(points, name, Tally::UnprivilegedFalseNegative) == count_pairs(points, name, |b: bool, tg: bool, pr: bool| !b && tg && !pr),
{
    lemma_tally_is_count(points, name, Tally::Privileged, |b: bool, tg: bool, pr: bool| b);
    lemma_tally_is_count(points, name, Tally::Unprivileged, |b: bool, tg: bool, pr: bool| !b);
    lemma_tally_is_count(points, name, Tally::PrivilegedPositive, |b: bool, tg: bool, pr: bool| b && pr);
    lemma_tally_is_count(points, name, Tally::UnprivilegedPositive, |b: bool, tg: bool, pr: bool| !b && pr);
    lemma_tally_is_count(points, name, Tally::PrivilegedLabel, |b: bool, tg: bool, pr: bool| b && tg);
    lemma_tally_is_count(points, name, Tally::UnprivilegedLabel, |b: bool, tg: bool, pr: bool| !b && tg);
    lemma_tally_is_count(points, name, Tally::PrivilegedTruePositive, |b: bool, tg: bool, pr: bool| b && tg && pr);
    lemma_tally_is_count(points, name, Tally::PrivilegedFalsePositive, |b: bool, tg: bool, pr: bool| b && !tg && pr);
    lemma_tally_is_count(points, name, Tally::PrivilegedTrueNegative, |b: bool, tg: bool, pr: bool| b && !tg && !pr);
    lemma_tally_is_count(points, name, Tally::PrivilegedFalseNegative, |b: bool, tg: bool, pr: bool| b && tg && !pr);
    lemma_tally_is_count(points, name, Tally::UnprivilegedTruePositive, |b: bool, tg: bool, pr: bool| !b && tg && pr);
    lemma_tally_is_count(points, name, Tally::UnprivilegedFalsePositive, |b: bool, tg: bool, pr: bool| !b && !tg && pr);
    lemma_tally_is_count(points, name, Tally::UnprivilegedTrueNegative, |b: bool, tg: bool, pr: bool| !b && !tg && !pr);
    lemma_tally_is_count(points, name, Tally::UnprivilegedFalseNegative, |b: bool, tg: bool, pr: bool| !b && tg && !pr);
}

/// Per-variable counts: each entry names a variable once, with a positive
/// count; a variable with no counted pair has no entry.
#[derive(Clone, Debug)]
pub struct CountMap {
    pub entries: Vec<(String, u128)>,
}

/// The count recorded for `name` (0 when there is no entry).
pub open spec fn entry_count(entries: Seq<(String, u128)>, name: Seq<char>) -> nat
    decreases entries.len(),
{
    if entries.len() == 0 {
        0
    } else if entries.last().0@ == name {
        entries.last().1 as nat
    } else {
        entry_count(entries.drop_last(), name)
    }
}

/// Entries name distinct variables and hold positive counts.
pub open spec fn entries_wf(entries: Seq<(String, u128)>) -> bool {
    &&& forall|i: int, j: int|
        0 <= i < j < entries.len() ==> (#[trigger] entries[i]).0@ != (#[trigger] entries[j]).0@
    &&& forall|i: int| 0 <= i < entries.len() ==> (#[trigger] entries[i]).1 > 0
}

/// Whether some entry names `name`.
pub open spec fn has_entry(entries: Seq<(String, u128)>, name: Seq<char>) -> bool {
    exists|i: int| 0 <= i < entries.len() && (#[trigger] entries[i]).0@ == name
}

impl CountMap {
    /// The count of `name`.
    pub open spec fn count_of(&self, name: Seq<char>) -> nat {
        entry_count(self.entries@, name)
    }

    /// Whether `name` has an entry.
    pub open spec fn contains(&self, name: Seq<char>) -> bool {
        has_entry(self.entries@, name)
    }

    /// The counts of the pairs of kind `t`.
    pub open spec fn counts_tally(&self, points: Seq<ClassifiedPoint>, t: Tally) -> bool {
        &&& entries_wf(self.entries@)
        &&& forall|name: Seq<char>| #[trigger] self.count_of(name) == tally_count(points, name, t)
    }
}

proof fn lemma_entry_count_at(entries: Seq<(String, u128)>, k: int)
    requires
        entries_wf(entries),
        0 <= k < entries.len(),
    ensures
        entry_count(entries, entries[k].0@) == entries[k].1,
    decreases entries.len(),
{
    if k < entries.len() - 1 {
        assert(entries.drop_last()[k] == entries[k]);
        assert(entries_wf(entries.drop_last()));
        lemma_entry_count_at(entries.drop_last(), k);
    }
}

proof fn lemma_entry_count_absent(entries: Seq<(String, u128)>, name: Seq<char>)
    requires
        !has_entry(entries, name),
    ensures
        entry_count(entries, name) == 0,
    decreases entries.len(),
{
    if entries.len() > 0 {
        assert(entries.last() == entries[entries.len() - 1]);
        assert forall|i: int| 0 <= i < entries.drop_last().len() implies (#[trigger] entries.drop_last()[i]).0@ != name by {
            assert(entries.drop_last()[i] == entries[i]);
        }
        lemma_entry_count_absent(entries.drop_last(), name);
    }
}

proof fn lemma_entry_count_present(entries: Seq<(String, u128)>, name: Seq<char>)
    requires
        entries_wf(entries),
    ensures
        has_entry(entries, name) <==> entry_count(entries, name) > 0,
{
    if has_entry(entries, name) {
        let k = choose|k: int| 0 <= k < entries.len() && (#[trigger] entries[k]).0@ == name;
        lemma_entry_count_at(entries, k);
    } else {
        lemma_entry_count_absent(entries, name);
    }
}

/// Law: a variable has an entry exactly when its count is positive.
pub proof fn lemma_count_map_keys(m: CountMap, name: Seq<char>)
    requires
        entries_wf(m.entries@),
    ensures
        m.contains(name) <==> m.count_of(name) > 0,
{
    lemma_entry_count_present(m.entries@, name);
}

proof fn lemma_entry_count_update(entries: Seq<(String, u128)>, k: int, v: u128, name: Seq<char>)
    requires
        entries_wf(entries),
        0 <= k < entries.len(),
        v > 0,
    ensures
        entries_wf(entries.update(k, (entries[k].0, v))),
        entry_count(entries.update(k, (entries[k].0, v)), name) == if name == entries[k].0@ {
            v as nat
        } else {
            entry_count(entries, name)
        },
    decreases entries.len(),
{
    let e2 = entries.update(k, (entries[k].0, v));
    if k == entries.len() - 1 {
        assert(e2.drop_last() =~= entries.drop_last());
        if name != entries[k].0@ {
        }
    } else {
        assert(entries_wf(entries.drop_last()));
        assert(entries.drop_last()[k] == entries[k]);
        lemma_entry_count_update(entries.drop_last(), k, v, name);
        assert(e2.drop_last() =~= entries.drop_last().update(k, (entries[k].0, v)));
        assert(e2.last() == entries.last());
        if entries.last().0@ == name {
            assert(entries[k].0@ != entries[entries.len() - 1].0@);
        }
    }
}

/// Adds one to the count of `name`, creating its entry when needed.
pub(crate) fn increment_count(entries: &mut Vec<(String, u128)>, name: &String)
    requires
        entries_wf(old(entries)@),
        entry_count(old(entries)@, name@) < u128::MAX,
    ensures
        entries_wf(final(entries)@),
        forall|other: Seq<char>| #[trigger] entry_count(final(entries)@, other) == if other == name@ {
            entry_count(old(entries)@, other) + 1
        } else {
            entry_count(old(entries)@, other)
        },
        forall|i: int| 0 <= i < old(entries)@.len() ==> (#[trigger] final(entries)@[i]).0 == old(entries)@[i].0,
        final(entries)@.len() == old(entries)@.len() || final(entries)@.len() == old(entries)@.len() + 1,
        final(entries)@.len() == old(entries)@.len() + 1 ==> final(entries)@.last().0@ == name@ && !has_entry(old(entries)@, name@),
{
    let ghost before = entries@;
    let mut k: usize = 0;
    while k < entries.len()
        invariant
            entries@ == before,
            before == old(entries)@,
            entries_wf(before),
            entry_count(before, name@) < u128::MAX,
            k <= before.len(),
            forall|i: int| 0 <= i < k ==> (#[trigger] before[i]).0@ != name@,
        decreases before.len() - k,
    {
        if entries[k].0 == *name {
            proof {
                lemma_entry_count_at(before, k as int);
            }
            let count = entries[k].1;
            let key = entries[k].0.clone();
            assert(key == before[k as int].0);
            assert(key@ == name@);
            entries.set(k, (key, count + 1));
            proof {
                assert(count == entry_count(before, name@));
                assert forall|i: int| 0 <= i < before.len() implies (#[trigger] entries@[i]).0 == before[i].0 by {
                }
                assert(entries@ == before.update(k as int, (before[k as int].0, (count + 1) as u128)));
                assert forall|other: Seq<char>| #[trigger] entry_count(entries@, other) == if other == name@ {
                    entry_count(before, other) + 1
                } else {
                    entry_count(before, other)
                } by {
                    lemma_entry_count_update(before, k as int, (count + 1) as u128, other);
                }
                lemma_entry_count_update(before, k as int, (count + 1) as u128, name@);
                assert(old(entries)@ == before);
            }
            return ;
        }
        k = k + 1;
    }
    proof {
        assert(!has_entry(before, name@));
        lemma_entry_count_absent(before, name@);
    }
    entries.push((name.clone(), 1));
    proof {
        assert(entries@.drop_last() =~= before);
        assert forall|i: int, j: int| 0 <= i < j < entries@.len() implies (#[trigger] entries@[i]).0@ != (#[trigger] entries@[j]).0@ by {
            if j == entries@.len() - 1 {
                assert(before[i] == entries@[i]);
            } else {
                assert(before[i] == entries@[i] && before[j] == entries@[j]);
            }
        }
    }
}

/// Counts the (point, variable) pairs of kind `t`, by variable.
pub fn count_tally(points: &Vec<ClassifiedPoint>, t: Tally) -> (res: CountMap)
    ensures
        res.counts_tally(points@, t),
{
    let mut entries: Vec<(String, u128)> = Vec::new();
    let ghost mut visited: int = 0;
    let n = points.len();
    let mut i: usize = 0;
    while i < n
        invariant
            n == points@.len(),
            i <= n,
            entries_wf(entries@),
            0 <= visited <= i * 0xffff_ffff_ffff_ffffint,
            forall|name: Seq<char>| #[trigger] entry_count(entries@, name) <= visited,
            forall|name: Seq<char>| #[trigger] entry_count(entries@, name) == tally_count(points@.take(i as int), name, t),
        decreases n - i,
    {
        let point = &points[i];
        let m = point.groups.len();
        let ghost start = visited;
        let mut j: usize = 0;
        while j < m
            invariant
                n == points@.len(),
                i < n,
                *point == points@[i as int],
                m == point.groups@.len(),
                j <= m,
                entries_wf(entries@),
                0 <= start <= i * 0xffff_ffff_ffff_ffffint,
                visited == start + j,
                forall|name: Seq<char>| #[trigger] entry_count(entries@, name) <= visited,
                forall|name: Seq<char>| #[trigger] entry_count(entries@, name) == tally_count(points@.take(i as int), name, t) + group_count(point.groups@.take(j as int), name, t, point.target, point.predicted),
            decreases m - j,
        {
            let g = &point.groups[j];
            proof {
                assert(point.groups@.take(j + 1).drop_last() =~= point.groups@.take(j as int));
                assert(point.groups@.take(j + 1).last() == *g);
                assert(i * 0xffff_ffff_ffff_ffffint <= 0xffff_ffff_ffff_fffeint * 0xffff_ffff_ffff_ffffint);
            }
            if tally_matches_exec(t, g.privileged, point.target, point.predicted) {
                increment_count(&mut entries, &g.variable_name);
            }
            proof {
                visited = visited + 1;
            }
            j = j + 1;
        }
        proof {
            assert(point.groups@.take(j as int) =~= point.groups@);
            assert(points@.take(i + 1).drop_last() =~= points@.take(i as int));
            assert(points@.take(i + 1).last() == *point);
        }
        i = i + 1;
    }
    proof {
        assert(points@.take(i as int) =~= points@);
    }
    CountMap { entries }
}

} // verus!

verus! {

/// The count of `name` in a table.
pub fn count_for(m: &CountMap, name: &String) -> (res: u128)
    requires
        entries_wf(m.entries@),
    ensures
        res == m.count_of(name@),
{
    let mut k: usize = 0;
    while k < m.entries.len()
        invariant
            k <= m.entries@.len(),
            entries_wf(m.entries@),
            forall|i: int| 0 <= i < k ==> (#[trigger] m.entries@[i]).0@ != name@,
        decreases m.entries@.len() - k,
    {
        if m.entries[k].0 == *name {
            proof {
                lemma_entry_count_at(m.entries@, k as int);
            }
            return m.entries[k].1;
        }
        k = k + 1;
    }
    proof {
        lemma_entry_count_absent(m.entries@, name@);
    }
    0
}

/// Counts, by variable, of the privileged pairs, the unprivileged pairs, and
/// those of each with a positive prediction.
pub fn calculate_group_counts(points: &Vec<ClassifiedPoint>) -> (res: (CountMap, CountMap, CountMap, CountMap))
    ensures
        res.0.counts_tally(points@, Tally::Privileged),
        res.1.counts_tally(points@, Tally::Unprivileged),
        res.2.counts_tally(points@, Tally::PrivilegedPositive),
        res.3.counts_tally(points@, Tally::UnprivilegedPositive),
{
    (
        count_tally(points, Tally::Privileged),
        count_tally(points, Tally::Unprivileged),
        count_tally(points, Tally::PrivilegedPositive),
        count_tally(points, Tally::UnprivilegedPositive),
    )
}

/// The confusion matrix of each group, by variable: true positives, false
/// positives, true negatives and false negatives of the privileged pairs,
/// then of the unprivileged pairs.
pub fn calculate_confusion_matrix(points: &Vec<ClassifiedPoint>) -> (res: (
    CountMap,
    CountMap,
    CountMap,
    CountMap,
    CountMap,
    CountMap,
    CountMap,
    CountMap,
))
    ensures
        res.0.counts_tally(points@, Tally::PrivilegedTruePositive),
        res.1.counts_tally(points@, Tally::PrivilegedFalsePositive),
        res.2.counts_tally(points@, Tally::PrivilegedTrueNegative),
        res.3.counts_tally(points@, Tally::PrivilegedFalseNegative),
        res.4.counts_tally(points@, Tally::UnprivilegedTruePositive),
        res.5.counts_tally(points@, Tally::UnprivilegedFalsePositive),
        res.6.counts_tally(points@, Tally::UnprivilegedTrueNegative),
        res.7.counts_tally(points@, Tally::UnprivilegedFalseNegative),
{
    (
        count_tally(points, Tally::PrivilegedTruePositive),
        count_tally(points, Tally::PrivilegedFalsePositive),
        count_tally(points, Tally::PrivilegedTrueNegative),
        count_tally(points, Tally::PrivilegedFalseNegative),
        count_tally(points, Tally::UnprivilegedTruePositive),
        count_tally(points, Tally::UnprivilegedFalsePositive),
        count_tally(points, Tally::UnprivilegedTrueNegative),
        count_tally(points, Tally::UnprivilegedFalseNegative),
    )
}

/// The number of points with this label and prediction.
pub open spec fn outcome_count(points: Seq<ClassifiedPoint>, target: bool, predicted: bool) -> nat
    decreases points.len(),
{
    if points.len() == 0 {
        0
    } else {
        outcome_count(points.drop_last(), target, predicted) + if points.last().target == target
            && points.last().predicted == predicted {
            1nat
        } else {
            0nat
        }
    }
}

proof fn lemma_outcome_counts_sum(points: Seq<ClassifiedPoint>)
    ensures
        outcome_count(points, true, true) + outcome_count(points, false, false) + outcome_count(
            points,
            false,
            true,
        ) + outcome_count(points, true, false) == points.len(),
    decreases points.len(),
{
    if points.len() > 0 {
        lemma_outcome_counts_sum(points.drop_last());
    }
}

/// The overall confusion matrix: true positives, true negatives, false
/// positives and false negatives.
pub fn calculate_overall_confusion_matrix(points: &Vec<ClassifiedPoint>) -> (res: (i128, i128, i128, i128))
    ensures
        res.0 == outcome_count(points@, true, true),
        res.1 == outcome_count(points@, false, false),
        res.2 == outcome_count(points@, false, true),
        res.3 == outcome_count(points@, true, false),
        res.0 + res.1 + res.2 + res.3 == points@.len(),
{
    let mut tp: i128 = 0;
    let mut tn: i128 = 0;
    let mut fp: i128 = 0;
    let mut fn_: i128 = 0;
    let mut i: usize = 0;
    while i < points.len()
        invariant
            i <= points@.len(),
            tp == outcome_count(points@.take(i as int), true, true),
            tn == outcome_count(points@.take(i as int), false, false),
            fp == outcome_count(points@.take(i as int), false, true),
            fn_ == outcome_count(points@.take(i as int), true, false),
            tp + tn + fp + fn_ == i,
        decreases points@.len() - i,
    {
        let p = &points[i];
        proof {
            assert(points@.take(i + 1).drop_last() =~= points@.take(i as int));
            assert(points@.take(i + 1).last() == *p);
            lemma_outcome_counts_sum(points@.take(i as int));
        }
        if p.target && p.predicted {
            tp = tp + 1;
        } else if !p.target && !p.predicted {
            tn = tn + 1;
        } else if !p.target && p.predicted {
            fp = fp + 1;
        } else {
            fn_ = fn_ + 1;
        }
        i = i + 1;
    }
    proof {
        assert(points@.take(i as int) =~= points@);
    }
    (tp, tn, fp, fn_)
}

/// Whether precision can be computed: some positive prediction.
pub fn can_calculate_precision(tp: i128, fp: i128) -> (res: bool)
    requires
        i128::MIN <= tp + fp <= i128::MAX,
    ensures
        res == (tp + fp != 0),
{
    let denominator = tp + fp;
    denominator != 0
}

/// Whether recall can be computed: some actual positive.
pub fn can_calculate_recall(tp: i128, fn_: i128) -> (res: bool)
    requires
        i128::MIN <= tp + fn_ <= i128::MAX,
    ensures
        res == (tp + fn_ != 0),
{
    let denominator = tp + fn_;
    denominator != 0
}

/// The accuracy: right predictions over all points.
pub fn accuracy(points: &Vec<ClassifiedPoint>) -> (res: Ratio)
    requires
        points@.len() > 0,
    ensures
        res.numerator == outcome_count(points@, true, true) + outcome_count(points@, false, false),
        res.denominator == points@.len(),
{
    let (tp, tn, fp, fn_) = calculate_overall_confusion_matrix(points);
    let n = points.len();
    assert(n as int == points@.len() && n <= u64::MAX);
    Ratio::new((tp + tn) as u64, (tp + tn + fp + fn_) as u64)
}

/// The precision: true positives over positive predictions.
pub fn precision(points: &Vec<ClassifiedPoint>) -> (res: Ratio)
    requires
        outcome_count(points@, true, true) + outcome_count(points@, false, true) > 0,
    ensures
        res.numerator == outcome_count(points@, true, true),
        res.denominator == outcome_count(points@, true, true) + outcome_count(points@, false, true),
{
    let (tp, _, fp, _) = calculate_overall_confusion_matrix(points);
    let n = points.len();
    assert(n as int == points@.len() && n <= u64::MAX);
    Ratio::new(tp as u64, (tp + fp) as u64)
}

/// The recall: true positives over actual positives.
pub fn recall(points: &Vec<ClassifiedPoint>) -> (res: Ratio)
    requires
        outcome_count(points@, true, true) + outcome_count(points@, true, false) > 0,
    ensures
        res.numerator == outcome_count(points@, true, true),
        res.denominator == outcome_count(points@, true, true) + outcome_count(points@, true, false),
{
    let (tp, _, _, fn_) = calculate_overall_confusion_matrix(points);
    let n = points.len();
    assert(n as int == points@.len() && n <= u64::MAX);
    Ratio::new(tp as u64, (tp + fn_) as u64)
}

} // verus!

verus! {

impl CountMap {
    /// Whether no variable was counted.
    pub fn is_empty(&self) -> (res: bool)
        requires
            entries_wf(self.entries@),
        ensures
            res == (forall|name: Seq<char>| #[trigger] self.count_of(name) == 0),
    {
        proof {
            if self.entries@.len() > 0 {
                lemma_entry_count_at(self.entries@, 0);
                assert(self.count_of(self.entries@[0].0@) > 0);
            } else {
                assert forall|name: Seq<char>| #[trigger] self.count_of(name) == 0 by {
                    lemma_entry_count_absent(self.entries@, name);
                }
            }
        }
        self.entries.len() == 0
    }
}

/// The positive predictions and sizes of both groups of one variable, from
/// which its statistical parity difference and disparate impact follow.
#[derive(Clone, Debug)]
pub struct GroupRate {
    pub variable_name: String,
    pub privileged_positives: u128,
    pub privileged_total: u128,
    pub unprivileged_positives: u128,
    pub unprivileged_total: u128,
}

/// `r` holds the counts of its variable over `points`.
pub open spec fn rate_matches(r: GroupRate, points: Seq<ClassifiedPoint>) -> bool {
    let name = r.variable_name@;
    &&& r.privileged_positives == tally_count(points, name, Tally::PrivilegedPositive)
    &&& r.privileged_total == tally_count(points, name, Tally::Privileged)
    &&& r.unprivileged_positives == tally_count(points, name, Tally::UnprivilegedPositive)
    &&& r.unprivileged_total == tally_count(points, name, Tally::Unprivileged)
}

/// Positions picked in increasing order, all below `bound`.
pub open spec fn increasing_below(idx: Seq<int>, bound: int) -> bool {
    &&& forall|k: int| 0 <= k < idx.len() ==> 0 <= #[trigger] idx[k] < bound
    &&& forall|a: int, b: int| 0 <= a < b < idx.len() ==> #[trigger] idx[a] < #[trigger] idx[b]
}

proof fn lemma_selected_distinct(entries: Seq<(String, u128)>, idx: Seq<int>, names: Seq<Seq<char>>)
    requires
        entries_wf(entries),
        increasing_below(idx, entries.len() as int),
        names.len() == idx.len(),
        forall|k: int| 0 <= k < idx.len() ==> #[trigger] names[k] == entries[idx[k]].0@,
    ensures
        forall|a: int, b: int| 0 <= a < b < names.len() ==> #[trigger] names[a] != #[trigger] names[b],
{
    assert forall|a: int, b: int| 0 <= a < b < names.len() implies #[trigger] names[a] != #[trigger] names[b] by {
        assert(idx[a] < idx[b]);
        assert(entries[idx[a]].0@ != entries[idx[b]].0@);
    }
}

/// The group sizes and positive predictions of every variable with members
/// in both groups; each such variable appears exactly once.
#[verifier::rlimit(40)]
pub fn parity_groups(points: &Vec<ClassifiedPoint>) -> (res: Vec<GroupRate>)
    ensures
        forall|k: int| 0 <= k < res@.len() ==> rate_matches(#[trigger] res@[k], points@),
        forall|k: int| 0 <= k < res@.len() ==> (#[trigger] res@[k]).privileged_total > 0 && res@[k].unprivileged_total > 0,
        forall|i: int, j: int| 0 <= i < j < res@.len() ==> (#[trigger] res@[i]).variable_name@ != (#[trigger] res@[j]).variable_name@,
        forall|name: Seq<char>|
            tally_count(points@, name, Tally::Privileged) > 0 && tally_count(points@, name, Tally::Unprivileged) > 0
                ==> exists|k: int| 0 <= k < res@.len() && (#[trigger] res@[k]).variable_name@ == name,
{
    let (privileged, unprivileged, privileged_positive, unprivileged_positive) = calculate_group_counts(points);
    let mut res: Vec<GroupRate> = Vec::new();
    let ghost mut idx: Seq<int> = Seq::empty();
    let mut i: usize = 0;
    while i < privileged.entries.len()
        invariant
            i <= privileged.entries@.len(),
            privileged.counts_tally(points@, Tally::Privileged),
            unprivileged.counts_tally(points@, Tally::Unprivileged),
            privileged_positive.counts_tally(points@, Tally::PrivilegedPositive),
            unprivileged_positive.counts_tally(points@, Tally::UnprivilegedPositive),
            idx.len() == res@.len(),
            increasing_below(idx, i as int),
            forall|k: int| 0 <= k < res@.len() ==> (#[trigger] res@[k]).variable_name@ == privileged.entries@[idx[k]].0@,
            forall|k: int| 0 <= k < res@.len() ==> rate_matches(#[trigger] res@[k], points@),
            forall|k: int| 0 <= k < res@.len() ==> (#[trigger] res@[k]).privileged_total > 0 && res@[k].unprivileged_total > 0,
            forall|e: int| 0 <= e < i && tally_count(points@, #[trigger] privileged.entries@[e].0@, Tally::Unprivileged) > 0
                ==> exists|k: int| 0 <= k < idx.len() && idx[k] == e,
        decreases privileged.entries@.len() - i,
    {
        let name = &privileged.entries[i].0;
        let total = privileged.entries[i].1;
        proof {
            lemma_entry_count_at(privileged.entries@, i as int);
        }
        let u = count_for(&unprivileged, name);
        if u > 0 {
            let rate = GroupRate {
                variable_name: name.clone(),
                privileged_positives: count_for(&privileged_positive, name),
                privileged_total: total,
                unprivileged_positives: count_for(&unprivileged_positive, name),
                unprivileged_total: u,
            };
            proof {
                assert(privileged.count_of(name@) == total);
                assert(rate.variable_name@ == name@);
                assert(rate_matches(rate, points@));
            }
            res.push(rate);
            proof {
                let old_idx = idx;
                idx = idx.push(i as int);
                assert forall|e: int| 0 <= e < i + 1 && tally_count(points@, #[trigger] privileged.entries@[e].0@, Tally::Unprivileged) > 0
                    implies exists|k: int| 0 <= k < idx.len() && idx[k] == e by {
                    if e < i {
                        let k = choose|k: int| 0 <= k < old_idx.len() && old_idx[k] == e;
                        assert(idx[k] == e);
                    } else {
                        assert(idx[idx.len() - 1] == e);
                    }
                }
            }
        }
        i = i + 1;
    }
    proof {
        let names = res@.map_values(|r: GroupRate| r.variable_name@);
        lemma_selected_distinct(privileged.entries@, idx, names);
        assert forall|a: int, b: int| 0 <= a < b < res@.len() implies (#[trigger] res@[a]).variable_name@ != (#[trigger] res@[b]).variable_name@ by {
            assert(names[a] != names[b]);
        }
        assert forall|name: Seq<char>|
            tally_count(points@, name, Tally::Privileged) > 0 && tally_count(points@, name, Tally::Unprivileged) > 0
            implies exists|k: int| 0 <= k < res@.len() && (#[trigger] res@[k]).variable_name@ == name by {
            lemma_count_map_keys(privileged, name);
            let e = choose|e: int| 0 <= e < privileged.entries@.len() && (#[trigger] privileged.entries@[e]).0@ == name;
            assert(tally_count(points@, privileged.entries@[e].0@, Tally::Unprivileged) > 0);
            let k = choose|k: int| 0 <= k < idx.len() && idx[k] == e;
            assert(res@[k].variable_name@ == name);
        }
    }
    res
}

} // verus!

verus! {

/// The confusion matrices of both groups of one variable, from which its
/// average odds difference follows.
#[derive(Clone, Debug)]
pub struct GroupConfusion {
    pub variable_name: String,
    pub privileged_tp: u128,
    pub privileged_fp: u128,
    pub privileged_tn: u128,
    pub privileged_fn: u128,
    pub unprivileged_tp: u128,
    pub unprivileged_fp: u128,
    pub unprivileged_tn: u128,
    pub unprivileged_fn: u128,
}

/// `c` holds the counts of its variable over `points`.
pub open spec fn confusion_matches(c: GroupConfusion, points: Seq<ClassifiedPoint>) -> bool {
    let name = c.variable_name@;
    &&& c.privileged_tp == tally_count(points, name, Tally::PrivilegedTruePositive)
    &&& c.privileged_fp == tally_count(points, name, Tally::PrivilegedFalsePositive)
    &&& c.privileged_tn == tally_count(points, name, Tally::PrivilegedTrueNegative)
    &&& c.privileged_fn == tally_count(points, name, Tally::PrivilegedFalseNegative)
    &&& c.unprivileged_tp == tally_count(points, name, Tally::UnprivilegedTruePositive)
    &&& c.unprivileged_fp == tally_count(points, name, Tally::UnprivilegedFalsePositive)
    &&& c.unprivileged_tn == tally_count(points, name, Tally::UnprivilegedTrueNegative)
    &&& c.unprivileged_fn == tally_count(points, name, Tally::UnprivilegedFalseNegative)
}

/// The confusion matrices of both groups, for every variable with a true
/// positive in its privileged group; each such variable appears once.
#[verifier::rlimit(40)]
pub fn average_odds_groups(points: &Vec<ClassifiedPoint>) -> (res: Vec<GroupConfusion>)
    ensures
        forall|k: int| 0 <= k < res@.len() ==> confusion_matches(#[trigger] res@[k], points@),
        forall|k: int| 0 <= k < res@.len() ==> (#[trigger] res@[k]).privileged_tp > 0,
        forall|i: int, j: int| 0 <= i < j < res@.len() ==> (#[trigger] res@[i]).variable_name@ != (#[trigger] res@[j]).variable_name@,
        forall|name: Seq<char>|
            tally_count(points@, name, Tally::PrivilegedTruePositive) > 0
                ==> exists|k: int| 0 <= k < res@.len() && (#[trigger] res@[k]).variable_name@ == name,
{
    let (ptp, pfp, ptn, pfn, utp, ufp, utn, ufn) = calculate_confusion_matrix(points);
    let mut res: Vec<GroupConfusion> = Vec::new();
    let mut i: usize = 0;
    while i < ptp.entries.len()
        invariant
            i <= ptp.entries@.len(),
            ptp.counts_tally(points@, Tally::PrivilegedTruePositive),
            pfp.counts_tally(points@, Tally::PrivilegedFalsePositive),
            ptn.counts_tally(points@, Tally::PrivilegedTrueNegative),
            pfn.counts_tally(points@, Tally::PrivilegedFalseNegative),
            utp.counts_tally(points@, Tally::UnprivilegedTruePositive),
            ufp.counts_tally(points@, Tally::UnprivilegedFalsePositive),
            utn.counts_tally(points@, Tally::UnprivilegedTrueNegative),
            ufn.counts_tally(points@, Tally::UnprivilegedFalseNegative),
            res@.len() == i,
            forall|k: int| 0 <= k < res@.len() ==> (#[trigger] res@[k]).variable_name@ == ptp.entries@[k].0@,
            forall|k: int| 0 <= k < res@.len() ==> confusion_matches(#[trigger] res@[k], points@),
            forall|k: int| 0 <= k < res@.len() ==> (#[trigger] res@[k]).privileged_tp > 0,
        decreases ptp.entries@.len() - i,
    {
        let name = &ptp.entries[i].0;
        let tp = ptp.entries[i].1;
        proof {
            lemma_entry_count_at(ptp.entries@, i as int);
            assert(ptp.count_of(name@) == tp);
        }
        let c = GroupConfusion {
            variable_name: name.clone(),
            privileged_tp: tp,
            privileged_fp: count_for(&pfp, name),
            privileged_tn: count_for(&ptn, name),
            privileged_fn: count_for(&pfn, name),
            unprivileged_tp: count_for(&utp, name),
            unprivileged_fp: count_for(&ufp, name),
            unprivileged_tn: count_for(&utn, name),
            unprivileged_fn: count_for(&ufn, name),
        };
        proof {
            assert(c.variable_name@ == name@);
            assert(confusion_matches(c, points@));
        }
        res.push(c);
        i = i + 1;
    }
    proof {
        assert forall|a: int, b: int| 0 <= a < b < res@.len() implies (#[trigger] res@[a]).variable_name@ != (#[trigger] res@[b]).variable_name@ by {
            assert(ptp.entries@[a].0@ != ptp.entries@[b].0@);
        }
        assert forall|name: Seq<char>|
            tally_count(points@, name, Tally::PrivilegedTruePositive) > 0
            implies exists|k: int| 0 <= k < res@.len() && (#[trigger] res@[k]).variable_name@ == name by {
            lemma_count_map_keys(ptp, name);
            let e = choose|e: int| 0 <= e < ptp.entries@.len() && (#[trigger] ptp.entries@[e]).0@ == name;
            assert(res@[e].variable_name@ == name);
        }
    }
    res
}

/// The actual positives of both groups of one variable and how many of them
/// were predicted positive, from which its equal opportunity difference
/// follows.
#[derive(Clone, Debug)]
pub struct GroupOpportunity {
    pub variable_name: String,
    pub privileged_label: u128,
    pub privileged_predicted_label: u128,
    pub unprivileged_label: u128,
    pub unprivileged_predicted_label: u128,
}

/// `o` holds the counts of its variable over `points`.
pub open spec fn opportunity_matches(o: GroupOpportunity, points: Seq<ClassifiedPoint>) -> bool {
    let name = o.variable_name@;
    &&& o.privileged_label == tally_count(points, name, Tally::PrivilegedLabel)
    &&& o.privileged_predicted_label == tally_count(points, name, Tally::PrivilegedTruePositive)
    &&& o.unprivileged_label == tally_count(points, name, Tally::UnprivilegedLabel)
    &&& o.unprivileged_predicted_label == tally_count(points, name, Tally::UnprivilegedTruePositive)
}

/// The actual positives of both groups and their positive predictions, for
/// every variable with an actual positive in either group; each such
/// variable appears once.
#[verifier::rlimit(60)]
pub fn equal_opportunity_groups(points: &Vec<ClassifiedPoint>) -> (res: Vec<GroupOpportunity>)
    ensures
        forall|k: int| 0 <= k < res@.len() ==> opportunity_matches(#[trigger] res@[k], points@),
        forall|k: int| 0 <= k < res@.len() ==> (#[trigger] res@[k]).privileged_label > 0 || res@[k].unprivileged_label > 0,
        forall|i: int, j: int| 0 <= i < j < res@.len() ==> (#[trigger] res@[i]).variable_name@ != (#[trigger] res@[j]).variable_name@,
        forall|name: Seq<char>|
            tally_count(points@, name, Tally::PrivilegedLabel) > 0 || tally_count(points@, name, Tally::UnprivilegedLabel) > 0
                ==> exists|k: int| 0 <= k < res@.len() && (#[trigger] res@[k]).variable_name@ == name,
{
    let label_privileged = count_tally(points, Tally::PrivilegedLabel);
    let label_unprivileged = count_tally(points, Tally::UnprivilegedLabel);
    let predicted_privileged = count_tally(points, Tally::PrivilegedTruePositive);
    let predicted_unprivileged = count_tally(points, Tally::UnprivilegedTruePositive);
    let mut res: Vec<GroupOpportunity> = Vec::new();
    let mut i: usize = 0;
    while i < label_privileged.entries.len()
        invariant
            i <= label_privileged.entries@.len(),
            label_privileged.counts_tally(points@, Tally::PrivilegedLabel),
            label_unprivileged.counts_tally(points@, Tally::UnprivilegedLabel),
            predicted_privileged.counts_tally(points@, Tally::PrivilegedTruePositive),
            predicted_unprivileged.counts_tally(points@, Tally::UnprivilegedTruePositive),
            res@.len() == i,
            forall|k: int| 0 <= k < res@.len() ==> (#[trigger] res@[k]).variable_name@ == label_privileged.entries@[k].0@,
            forall|k: int| 0 <= k < res@.len() ==> opportunity_matches(#[trigger] res@[k], points@),
            forall|k: int| 0 <= k < res@.len() ==> (#[trigger] res@[k]).privileged_label > 0,
        decreases label_privileged.entries@.len() - i,
    {
        let name = &label_privileged.entries[i].0;
        let count = label_privileged.entries[i].1;
        proof {
            lemma_entry_count_at(label_privileged.entries@, i as int);
            assert(label_privileged.count_of(name@) == count);
        }
        let o = GroupOpportunity {
            variable_name: name.clone(),
            privileged_label: count,
            privileged_predicted_label: count_for(&predicted_privileged, name),
            unprivileged_label: count_for(&label_unprivileged, name),
            unprivileged_predicted_label: count_for(&predicted_unprivileged, name),
        };
        proof {
            assert(o.variable_name@ == name@);
        }
        res.push(o);
        i = i + 1;
    }
    let first = res.len();
    let ghost mut idx: Seq<int> = Seq::empty();
    let mut j: usize = 0;
    while j < label_unprivileged.entries.len()
        invariant
            j <= label_unprivileged.entries@.len(),
            first == label_privileged.entries@.len(),
            first <= res@.len(),
            label_privileged.counts_tally(points@, Tally::PrivilegedLabel),
            label_unprivileged.counts_tally(points@, Tally::UnprivilegedLabel),
            predicted_privileged.counts_tally(points@, Tally::PrivilegedTruePositive),
            predicted_unprivileged.counts_tally(points@, Tally::UnprivilegedTruePositive),
            forall|k: int| 0 <= k < first ==> (#[trigger] res@[k]).variable_name@ == label_privileged.entries@[k].0@,
            forall|k: int| 0 <= k < first ==> (#[trigger] res@[k]).privileged_label > 0,
            idx.len() == res@.len() - first,
            increasing_below(idx, j as int),
            forall|k: int| first <= k < res@.len() ==> (#[trigger] res@[k]).variable_name@ == label_unprivileged.entries@[idx[k - first]].0@,
            forall|k: int| first <= k < res@.len() ==> (#[trigger] res@[k]).privileged_label == 0 && res@[k].unprivileged_label > 0,
            forall|k: int| 0 <= k < res@.len() ==> opportunity_matches(#[trigger] res@[k], points@),
            forall|e: int| 0 <= e < j && tally_count(points@, #[trigger] label_unprivileged.entries@[e].0@, Tally::PrivilegedLabel) == 0
                ==> exists|k: int| 0 <= k < idx.len() && idx[k] == e,
        decreases label_unprivileged.entries@.len() - j,
    {
        let name = &label_unprivileged.entries[j].0;
        let count = label_unprivileged.entries[j].1;
        proof {
            lemma_entry_count_at(label_unprivileged.entries@, j as int);
            assert(label_unprivileged.count_of(name@) == count);
        }
        let p = count_for(&label_privileged, name);
        if p == 0 {
            let o = GroupOpportunity {
                variable_name: name.clone(),
                privileged_label: 0,
                privileged_predicted_label: count_for(&predicted_privileged, name),
                unprivileged_label: count,
                unprivileged_predicted_label: count_for(&predicted_unprivileged, name),
            };
            proof {
                assert(o.variable_name@ == name@);
                assert(opportunity_matches(o, points@));
            }
            res.push(o);
            proof {
                let old_idx = idx;
                idx = idx.push(j as int);
                assert forall|e: int| 0 <= e < j + 1 && tally_count(points@, #[trigger] label_unprivileged.entries@[e].0@, Tally::PrivilegedLabel) == 0
                    implies exists|k: int| 0 <= k < idx.len() && idx[k] == e by {
                    if e < j {
                        let k = choose|k: int| 0 <= k < old_idx.len() && old_idx[k] == e;
                        assert(idx[k] == e);
                    } else {
                        assert(idx[idx.len() - 1] == e);
                    }
                }
            }
        }
        j = j + 1;
    }
    proof {
        assert forall|a: int, b: int| 0 <= a < b < res@.len() implies (#[trigger] res@[a]).variable_name@ != (#[trigger] res@[b]).variable_name@ by {
            if b < first {
                assert(label_privileged.entries@[a].0@ != label_privileged.entries@[b].0@);
            } else if a < first {
                lemma_count_map_keys(label_privileged, res@[a].variable_name@);
                assert(label_privileged.contains(res@[a].variable_name@));
                assert(res@[b].privileged_label == 0);
            } else {
                assert(idx[a - first] < idx[b - first]);
                assert(label_unprivileged.entries@[idx[a - first]].0@ != label_unprivileged.entries@[idx[b - first]].0@);
            }
        }
        assert forall|name: Seq<char>|
            tally_count(points@, name, Tally::PrivilegedLabel) > 0 || tally_count(points@, name, Tally::UnprivilegedLabel) > 0
            implies exists|k: int| 0 <= k < res@.len() && (#[trigger] res@[k]).variable_name@ == name by {
            if tally_count(points@, name, Tally::PrivilegedLabel) > 0 {
                lemma_count_map_keys(label_privileged, name);
                let e = choose|e: int| 0 <= e < label_privileged.entries@.len() && (#[trigger] label_privileged.entries@[e]).0@ == name;
                assert(res@[e].variable_name@ == name);
            } else {
                lemma_count_map_keys(label_unprivileged, name);
                let e = choose|e: int| 0 <= e < label_unprivileged.entries@.len() && (#[trigger] label_unprivileged.entries@[e]).0@ == name;
                assert(tally_count(points@, label_unprivileged.entries@[e].0@, Tally::PrivilegedLabel) == 0);
                let k = choose|k: int| 0 <= k < idx.len() && idx[k] == e;
                assert(res@[k + first].variable_name@ == name);
            }
        }
    }
    res
}

/// Whether some (point, variable) pair is of kind `t`.
pub open spec fn has_pairs(points: Seq<ClassifiedPoint>, t: Tally) -> bool {
    exists|name: Seq<char>| #[trigger] tally_count(points, name, t) > 0
}

/// Which metrics of an LLM fairness evaluation can be computed from its
/// classified answers.
#[derive(Debug)]
pub enum LlmMetricsPlan {
    /// Both groups have answers: every metric is computed.
    AllMetrics,
    /// A group has no answer: the fairness metrics are left out, and of the
    /// overall ones those whose denominator is not zero are given.
    Partial { accuracy: Option<Ratio>, precision: Option<Ratio>, recall: Option<Ratio> },
}

/// Decides which metrics of an LLM evaluation can be computed, and computes
/// the overall ones when the fairness metrics cannot be.
pub fn llm_metrics_plan(points: &Vec<ClassifiedPoint>) -> (res: LlmMetricsPlan)
    ensures
        (res is AllMetrics) == (has_pairs(points@, Tally::Privileged) && has_pairs(points@, Tally::Unprivileged)),
        res matches LlmMetricsPlan::Partial { accuracy, precision, recall } ==> {
            let tp = outcome_count(points@, true, true);
            let tn = outcome_count(points@, false, false);
            let fp = outcome_count(points@, false, true);
            let fn_ = outcome_count(points@, true, false);
            &&& (accuracy is Some) == (points@.len() > 0)
            &&& accuracy matches Some(a) ==> a.numerator == tp + tn && a.denominator == points@.len()
            &&& (precision is Some) == (points@.len() > 0 && tp + fp > 0)
            &&& precision matches Some(p) ==> p.numerator == tp && p.denominator == tp + fp
            &&& (recall is Some) == (points@.len() > 0 && tp + fn_ > 0)
            &&& recall matches Some(r) ==> r.numerator == tp && r.denominator == tp + fn_
        },
{
    let privileged = count_tally(points, Tally::Privileged);
    let unprivileged = count_tally(points, Tally::Unprivileged);
    let no_privileged = privileged.is_empty();
    let no_unprivileged = unprivileged.is_empty();
    proof {
        if !no_privileged {
            let name = choose|name: Seq<char>| privileged.count_of(name) != 0;
            assert(tally_count(points@, name, Tally::Privileged) > 0);
        }
        if !no_unprivileged {
            let name = choose|name: Seq<char>| unprivileged.count_of(name) != 0;
            assert(tally_count(points@, name, Tally::Unprivileged) > 0);
        }
        if has_pairs(points@, Tally::Privileged) {
            let name = choose|name: Seq<char>| #[trigger] tally_count(points@, name, Tally::Privileged) > 0;
            assert(privileged.count_of(name) > 0);
        }
        if has_pairs(points@, Tally::Unprivileged) {
            let name = choose|name: Seq<char>| #[trigger] tally_count(points@, name, Tally::Unprivileged) > 0;
            assert(unprivileged.count_of(name) > 0);
        }
    }
    if !no_privileged && !no_unprivileged {
        return LlmMetricsPlan::AllMetrics;
    }
    if points.len() == 0 {
        return LlmMetricsPlan::Partial { accuracy: None, precision: None, recall: None };
    }
    let acc = accuracy(points);
    let (tp, _, fp, fn_) = calculate_overall_confusion_matrix(points);
    let rec = if can_calculate_recall(tp, fn_) {
        Some(recall(points))
    } else {
        None
    };
    let prec = if can_calculate_precision(tp, fp) {
        Some(precision(points))
    } else {
        None
    };
    LlmMetricsPlan::Partial { accuracy: Some(acc), precision: prec, recall: rec }
}

} // verus!

verus! {

proof fn lemma_group_pairs_mono(
    groups: Seq<GroupMembership>,
    name: Seq<char>,
    target: bool,
    predicted: bool,
    small: spec_fn(bool, bool, bool) -> bool,
    large: spec_fn(bool, bool, bool) -> bool,
)
    requires
        forall|b: bool| #[trigger] small(b, target, predicted) ==> large(b, target, predicted),
    ensures
        group_pairs(groups, name, target, predicted, small) <= group_pairs(groups, name, target, predicted, large),
    decreases groups.len(),
{
    if groups.len() > 0 {
        lemma_group_pairs_mono(groups.drop_last(), name, target, predicted, small, large);
        assert(small(groups.last().privileged, target, predicted) ==> large(groups.last().privileged, target, predicted));
    }
}

/// A condition that implies another counts no more pairs.
proof fn lemma_count_pairs_mono(
    points: Seq<ClassifiedPoint>,
    name: Seq<char>,
    small: spec_fn(bool, bool, bool) -> bool,
    large: spec_fn(bool, bool, bool) -> bool,
)
    requires
        forall|b: bool, tg: bool, pr: bool| #[trigger] small(b, tg, pr) ==> large(b, tg, pr),
    ensures
        count_pairs(points, name, small) <= count_pairs(points, name, large),
    decreases points.len(),
{
    if points.len() > 0 {
        let last = points.last();
        lemma_count_pairs_mono(points.drop_last(), name, small, large);
        lemma_group_pairs_mono(last.groups@, name, last.target, last.predicted, small, large);
    }
}

/// Law: the group sizes and positive predictions behind the statistical
/// parity difference and the disparate impact of a variable. The total of a
/// group counts its pairs whatever their label and prediction; its positives
/// count its pairs predicted positive, whatever their actual label, so never
/// more than its total.
pub proof fn lemma_parity_group_counts(points: Seq<ClassifiedPoint>, r: GroupRate)
    requires
        rate_matches(r, points),
    ensures
        r.privileged_total == count_pairs(points, r.variable_name@, |b: bool, tg: bool, pr: bool| b),
        r.privileged_positives == count_pairs(points, r.variable_name@, |b: bool, tg: bool, pr: bool| b && pr),
        r.unprivileged_total == count_pairs(points, r.variable_name@, |b: bool, tg: bool, pr: bool| !b),
        r.unprivileged_positives == count_pairs(points, r.variable_name@, |b: bool, tg: bool, pr: bool| !b && pr),
        r.privileged_positives <= r.privileged_total,
        r.unprivileged_positives <= r.unprivileged_total,
{
    let name = r.variable_name@;
    lemma_tallies_count_their_pairs(points, name);
    lemma_count_pairs_mono(points, name, |b: bool, tg: bool, pr: bool| b && pr, |b: bool, tg: bool, pr: bool| b);
    lemma_count_pairs_mono(points, name, |b: bool, tg: bool, pr: bool| !b && pr, |b: bool, tg: bool, pr: bool| !b);
}

/// Law: the counts behind the equal opportunity difference of a variable.
/// A group's label count counts its pairs whose actual label is positive,
/// whatever the prediction; its predicted-label count counts those of them
/// also predicted positive, so never more than the label count.
pub proof fn lemma_opportunity_group_counts(points: Seq<ClassifiedPoint>, o: GroupOpportunity)
    requires
        opportunity_matches(o, points),
    ensures
        o.privileged_label == count_pairs(points, o.variable_name@, |b: bool, tg: bool, pr: bool| b && tg),
        o.privileged_predicted_label == count_pairs(points, o.variable_name@, |b: bool, tg: bool, pr: bool| b && tg && pr),
        o.unprivileged_label == count_pairs(points, o.variable_name@, |b: bool, tg: bool, pr: bool| !b && tg),
        o.unprivileged_predicted_label == count_pairs(points, o.variable_name@, |b: bool, tg: bool, pr: bool| !b && tg && pr),
        o.privileged_predicted_label <= o.privileged_label,
        o.unprivileged_predicted_label <= o.unprivileged_label,
{
    let name = o.variable_name@;
    lemma_tallies_count_their_pairs(points, name);
    lemma_count_pairs_mono(points, name, |b: bool, tg: bool, pr: bool| b && tg && pr, |b: bool, tg: bool, pr: bool| b && tg);
    lemma_count_pairs_mono(points, name, |b: bool, tg: bool, pr: bool| !b && tg && pr, |b: bool, tg: bool, pr: bool| !b && tg);
}

/// Law: the confusion matrices behind the average odds difference of a
/// variable. Each count is the group's pairs with that actual label and that
/// prediction; a group's true positives and false negatives together are its
/// actual positives, its false positives and true negatives its actual
/// negatives.
pub proof fn lemma_confusion_group_counts(points: Seq<ClassifiedPoint>, c: GroupConfusion)
    requires
        confusion_matches(c, points),
    ensures
        c.privileged_tp == count_pairs(points, c.variable_name@, |b: bool, tg: bool, pr: bool| b && tg && pr),
        c.privileged_fp == count_pairs(points, c.variable_name@, |b: bool, tg: bool, pr: bool| b && !tg && pr),
        c.privileged_tn == count_pairs(points, c.variable_name@, |b: bool, tg: bool, pr: bool| b && !tg && !pr),
        c.privileged_fn == count_pairs(points, c.variable_name@, |b: bool, tg: bool, pr: bool| b && tg && !pr),
        c.unprivileged_tp == count_pairs(points, c.variable_name@, |b: bool, tg: bool, pr: bool| !b && tg && pr),
        c.unprivileged_fp == count_pairs(points, c.variable_name@, |b: bool, tg: bool, pr: bool| !b && !tg && pr),
        c.unprivileged_tn == count_pairs(points, c.variable_name@, |b: bool, tg: bool, pr: bool| !b && !tg && !pr),
        c.unprivileged_fn == count_pairs(points, c.variable_name@, |b: bool, tg: bool, pr: bool| !b && tg && !pr),
{
    lemma_tallies_count_their_pairs(points, c.variable_name@);
}

} // verus!
