use vstd::prelude::*;
use crate::jobs::bytes_equal;
use crate::text::{chars_of, trim_chars, trim_spec};

verus! {

/// The descriptive details of a model.
#[derive(Clone, Debug)]
pub struct ModelDetails {
    pub description: String,
    pub framework: String,
    pub objective: String,
    pub url: String,
}

/// A new name and new details for a model.
#[derive(Clone, Debug)]
pub struct UpdatedDetails {
    pub name: String,
    pub details: ModelDetails,
}

/// One version of a model's name and details, with when it was recorded.
#[derive(Clone, Debug)]
pub struct ModelDetailsHistory {
    pub name: String,
    pub details: ModelDetails,
    pub version: u128,
    pub timestamp: u64,
}

/// The texts of a model's details.
pub open spec fn details_view(d: ModelDetails) -> (Seq<char>, Seq<char>, Seq<char>, Seq<char>) {
    (d.description@, d.framework@, d.objective@, d.url@)
}

/// A copy of a model's details.
pub fn copy_details(d: &ModelDetails) -> (res: ModelDetails)
    ensures
        details_view(res) == details_view(*d),
{
    ModelDetails {
        description: d.description.clone(),
        framework: d.framework.clone(),
        objective: d.objective.clone(),
        url: d.url.clone(),
    }
}

/// A model name is valid when it is not blank.
pub open spec fn valid_model_name(name: Seq<char>) -> bool {
    trim_spec(name).len() > 0
}

/// Whether a model name is valid (not blank).
pub fn is_valid_model_name(name: &str) -> (res: bool)
    ensures
        res == valid_model_name(name@),
{
    let chars = chars_of(name);
    let trimmed = trim_chars(&chars);
    trimmed.len() > 0
}

/// The details history of a new model: its name and details as version 0.
pub fn initial_details_history(name: &String, details: &ModelDetails, timestamp: u64) -> (res: Vec<ModelDetailsHistory>)
    ensures
        res@.len() == 1,
        res@[0].name@ == name@,
        details_view(res@[0].details) == details_view(*details),
        res@[0].version == 0,
        res@[0].timestamp == timestamp,
{
    let entry = ModelDetailsHistory { name: name.clone(), details: copy_details(details), version: 0, timestamp };
    let mut history: Vec<ModelDetailsHistory> = Vec::new();
    history.push(entry);
    history
}

/// Records new details of a model in its history. An edit replaces the
/// latest entry, keeping its version; otherwise the model's version becomes
/// one more than the latest entry's and a new entry is appended.
pub fn update_details_history(
    history: &mut Vec<ModelDetailsHistory>,
    model_version: &mut u128,
    name: &String,
    details: &ModelDetails,
    edit: bool,
    timestamp: u64,
)
    requires
        old(history)@.len() > 0,
        old(history)@.last().version < u128::MAX,
    ensures
        ({
            let latest = old(history)@.last();
            let kept = if edit {
                old(history)@.drop_last()
            } else {
                old(history)@
            };
            let version = if edit {
                latest.version as int
            } else {
                latest.version + 1
            };
            &&& final(history)@.len() == kept.len() + 1
            &&& forall|i: int| 0 <= i < kept.len() ==> #[trigger] final(history)@[i] == kept[i]
            &&& final(history)@.last().name@ == name@
            &&& details_view(final(history)@.last().details) == details_view(*details)
            &&& final(history)@.last().version == version
            &&& final(history)@.last().timestamp == timestamp
            &&& *final(model_version) == if edit {
                *old(model_version) as int
            } else {
                version
            }
        }),
{
    let last = history.len() - 1;
    let latest_version = history[last].version;
    let version = if edit {
        history.pop();
        latest_version
    } else {
        *model_version = latest_version + 1;
        *model_version
    };
    history.push(ModelDetailsHistory { name: name.clone(), details: copy_details(details), version, timestamp });
}

/// Whether `caller` is one of the owners.
pub open spec fn is_owner_spec(owners: Seq<Vec<u8>>, caller: Seq<u8>) -> bool {
    exists|i: int| 0 <= i < owners.len() && (#[trigger] owners[i])@ == caller
}

/// Whether `caller` (the bytes of a principal) is one of the owners.
pub fn is_owner(owners: &Vec<Vec<u8>>, caller: &Vec<u8>) -> (res: bool)
    ensures
        res == is_owner_spec(owners@, caller@),
{
    let mut i: usize = 0;
    while i < owners.len()
        invariant
            i <= owners@.len(),
            forall|k: int| 0 <= k < i ==> (#[trigger] owners@[k])@ != caller@,
        decreases owners@.len() - i,
    {
        if bytes_equal(&owners[i], caller) {
            return true;
        }
        i = i + 1;
    }
    false
}

/// A named column index given by a caller.
#[derive(Clone, Debug)]
pub struct KeyValuePair {
    pub key: String,
    pub value: u128,
}

/// The value of the last pair with key `key`, if any.
pub open spec fn lookup(pairs: Seq<(Seq<char>, u128)>, key: Seq<char>) -> Option<u128>
    decreases pairs.len(),
{
    if pairs.len() == 0 {
        None
    } else if pairs.last().0 == key {
        Some(pairs.last().1)
    } else {
        lookup(pairs.drop_last(), key)
    }
}

/// The texts and values of a list of entries.
pub open spec fn entries_view(entries: Seq<(String, u128)>) -> Seq<(Seq<char>, u128)> {
    entries.map_values(|e: (String, u128)| (e.0@, e.1))
}

/// The texts and values of key/value pairs.
pub open spec fn pairs_view(pairs: Seq<KeyValuePair>) -> Seq<(Seq<char>, u128)> {
    pairs.map_values(|p: KeyValuePair| (p.key@, p.value))
}

/// Each key at most once.
pub open spec fn distinct_keys(entries: Seq<(Seq<char>, u128)>) -> bool {
    forall|i: int, j: int| 0 <= i < j < entries.len() ==> (#[trigger] entries[i]).0 != (#[trigger] entries[j]).0
}

/// The privileged-variable map of a dataset: variable names and the index
/// of their feature column, each name once.
#[derive(Clone, Debug)]
pub struct PrivilegedMap {
    pub entries: Vec<(String, u128)>,
}

impl PrivilegedMap {
    /// The entries' names are distinct.
    pub open spec fn wf(&self) -> bool {
        distinct_keys(entries_view(self.entries@))
    }

    /// The index recorded for `key`.
    pub open spec fn get_spec(&self, key: Seq<char>) -> Option<u128> {
        lookup(entries_view(self.entries@), key)
    }

    /// An empty map.
    pub fn new() -> (res: Self)
        ensures
            res.wf(),
            forall|key: Seq<char>| #[trigger] res.get_spec(key) is None,
    {
        PrivilegedMap { entries: Vec::new() }
    }

    /// The index recorded for `key`.
    pub fn get(&self, key: &String) -> (res: Option<u128>)
        requires
            self.wf(),
        ensures
            res == self.get_spec(key@),
    {
        let ghost ev = entries_view(self.entries@);
        let mut i: usize = self.entries.len();
        assert(ev.take(i as int) =~= ev);
        while i > 0
            invariant
                i <= self.entries@.len(),
                ev == entries_view(self.entries@),
                lookup(ev, key@) == lookup(ev.take(i as int), key@),
            decreases i,
        {
            assert(ev.take(i as int).drop_last() =~= ev.take(i - 1));
            assert(ev.take(i as int).last() == ev[i - 1]);
            if self.entries[i - 1].0 == *key {
                return Some(self.entries[i - 1].1);
            }
            i = i - 1;
        }
        None
    }

    /// Records `value` for `key`, replacing an earlier value.
    pub fn insert(&mut self, key: String, value: u128)
        requires
            old(self).wf(),
        ensures
            final(self).wf(),
            forall|k: Seq<char>| #[trigger] final(self).get_spec(k) == if k == key@ {
                Some(value)
            } else {
                old(self).get_spec(k)
            },
    {
        let ghost before = entries_view(self.entries@);
        let mut i: usize = 0;
        while i < self.entries.len()
            invariant
                i <= self.entries@.len(),
                before == entries_view(self.entries@),
                self.entries@ == old(self).entries@,
                distinct_keys(before),
                forall|j: int| 0 <= j < i ==> (#[trigger] before[j]).0 != key@,
            decreases self.entries@.len() - i,
        {
            if self.entries[i].0 == key {
                self.entries.set(i, (key, value));
                proof {
                    let after = entries_view(self.entries@);
                    assert(after =~= before.update(i as int, (key@, value)));
                    lemma_lookup_update(before, i as int, value);
                }
                return;
            }
            i = i + 1;
        }
        let ghost k = key@;
        self.entries.push((key, value));
        proof {
            let after = entries_view(self.entries@);
            assert(after =~= before.push((k, value)));
            assert(after.drop_last() =~= before);
            assert forall|a: int, b: int| 0 <= a < b < after.len() implies (#[trigger] after[a]).0 != (#[trigger] after[b]).0 by {
                if b == after.len() - 1 {
                    assert(after[a] == before[a]);
                } else {
                    assert(after[a] == before[a] && after[b] == before[b]);
                }
            }
        }
    }
}

proof fn lemma_lookup_absent(entries: Seq<(Seq<char>, u128)>, key: Seq<char>)
    requires
        forall|j: int| 0 <= j < entries.len() ==> (#[trigger] entries[j]).0 != key,
    ensures
        lookup(entries, key) is None,
    decreases entries.len(),
{
    if entries.len() > 0 {
        lemma_lookup_absent(entries.drop_last(), key);
    }
}

proof fn lemma_lookup_update(entries: Seq<(Seq<char>, u128)>, i: int, value: u128)
    requires
        distinct_keys(entries),
        0 <= i < entries.len(),
    ensures
        forall|k: Seq<char>| #[trigger] lookup(entries.update(i, (entries[i].0, value)), k) == if k == entries[i].0 {
            Some(value)
        } else {
            lookup(entries, k)
        },
        distinct_keys(entries.update(i, (entries[i].0, value))),
    decreases entries.len(),
{
    let u = entries.update(i, (entries[i].0, value));
    assert forall|a: int, b: int| 0 <= a < b < u.len() implies (#[trigger] u[a]).0 != (#[trigger] u[b]).0 by {
        assert(u[a].0 == entries[a].0 && u[b].0 == entries[b].0);
    }
    if i == entries.len() - 1 {
        assert(u.drop_last() =~= entries.drop_last());
    } else {
        lemma_lookup_update(entries.drop_last(), i, value);
        assert(u.drop_last() =~= entries.drop_last().update(i, (entries[i].0, value)));
        assert(u.last() == entries.last());
        assert forall|k: Seq<char>| #[trigger] lookup(u, k) == if k == entries[i].0 {
            Some(value)
        } else {
            lookup(entries, k)
        } by {
            let d = entries.drop_last();
            assert(d[i].0 == entries[i].0);
            assert(lookup(d.update(i, (d[i].0, value)), k) == if k == d[i].0 {
                Some(value)
            } else {
                lookup(d, k)
            });
            assert(entries.last().0 != entries[i].0);
        }
    }
}

impl KeyValuePair {
    /// The map of the pairs: each key with the value of its last pair.
    pub fn to_hashmap(pairs: Vec<KeyValuePair>) -> (res: PrivilegedMap)
        ensures
            res.wf(),
            forall|key: Seq<char>| #[trigger] res.get_spec(key) == lookup(pairs_view(pairs@), key),
    {
        let ghost pv = pairs_view(pairs@);
        let mut map = PrivilegedMap::new();
        let mut i: usize = 0;
        while i < pairs.len()
            invariant
                i <= pairs@.len(),
                pv == pairs_view(pairs@),
                map.wf(),
                forall|key: Seq<char>| #[trigger] map.get_spec(key) == lookup(pv.take(i as int), key),
            decreases pairs@.len() - i,
        {
            let pair = &pairs[i];
            assert(pv.take(i + 1).drop_last() =~= pv.take(i as int));
            assert(pv.take(i + 1).last() == (pair.key@, pair.value));
            map.insert(pair.key.clone(), pair.value);
            i = i + 1;
        }
        assert(pv.take(i as int) =~= pv);
        map
    }
}

/// The pairs of the labels with the indices at the same positions.
pub open spec fn label_pairs(labels: Seq<String>, indices: Seq<u128>) -> Seq<(Seq<char>, u128)> {
    Seq::new(labels.len(), |i: int| (labels[i]@, indices[i]))
}

/// The map of each label to the index at its position (a repeated label
/// keeps its last index).
pub fn privileged_map_from_labels(labels: &Vec<String>, indices: &Vec<u128>) -> (res: PrivilegedMap)
    requires
        indices@.len() >= labels@.len(),
    ensures
        res.wf(),
        forall|key: Seq<char>| #[trigger] res.get_spec(key) == lookup(label_pairs(labels@, indices@), key),
{
    let ghost lp = label_pairs(labels@, indices@);
    let mut map = PrivilegedMap::new();
    let mut i: usize = 0;
    while i < labels.len()
        invariant
            i <= labels@.len(),
            indices@.len() >= labels@.len(),
            lp == label_pairs(labels@, indices@),
            map.wf(),
            forall|key: Seq<char>| #[trigger] map.get_spec(key) == lookup(lp.take(i as int), key),
        decreases labels@.len() - i,
    {
        assert(lp.take(i + 1).drop_last() =~= lp.take(i as int));
        assert(lp.take(i + 1).last() == (labels@[i as int]@, indices@[i as int]));
        map.insert(labels[i].clone(), indices[i]);
        i = i + 1;
    }
    assert(lp.take(i as int) =~= lp);
    map
}

/// Checks the shape of a dataset: as many predictions as labels, and every
/// feature column as long as the labels.
pub fn check_dataset_shape<T>(features: &Vec<Vec<T>>, labels_len: usize, predictions_len: usize) -> (res: Result<(), String>)
    ensures
        predictions_len != labels_len ==> (res matches Err(e) && e@ == "Error: Lengths of labels and predictions must be equal."@),
        predictions_len == labels_len ==> match res {
            Ok(_) => forall|j: int| 0 <= j < features@.len() ==> (#[trigger] features@[j])@.len() == labels_len,
            Err(e) => e@ == "Error: All feature columns must have the same length as labels."@ && exists|j: int|
                0 <= j < features@.len() && (#[trigger] features@[j])@.len() != labels_len,
        },
{
    if predictions_len != labels_len {
        return Err("Error: Lengths of labels and predictions must be equal.".to_string());
    }
    let mut j: usize = 0;
    while j < features.len()
        invariant
            predictions_len == labels_len,
            j <= features@.len(),
            forall|k: int| 0 <= k < j ==> (#[trigger] features@[k])@.len() == labels_len,
        decreases features@.len() - j,
    {
        if features[j].len() != labels_len {
            return Err("Error: All feature columns must have the same length as labels.".to_string());
        }
        j = j + 1;
    }
    Ok(())
}

/// The feature vector of each data point: row `i` holds the `i`-th value of
/// every column, in column order.
pub fn feature_rows<T: Copy>(features: &Vec<Vec<T>>, n: usize) -> (res: Vec<Vec<T>>)
    requires
        forall|j: int| 0 <= j < features@.len() ==> (#[trigger] features@[j])@.len() == n,
    ensures
        res@.len() == n,
        forall|i: int| 0 <= i < n ==> (#[trigger] res@[i])@.len() == features@.len(),
        forall|i: int, j: int| 0 <= i < n && 0 <= j < features@.len() ==> (#[trigger] res@[i])@[j] == (#[trigger] features@[j])@[i],
{
    let mut rows: Vec<Vec<T>> = Vec::new();
    let mut i: usize = 0;
    while i < n
        invariant
            i <= n,
            forall|j: int| 0 <= j < features@.len() ==> (#[trigger] features@[j])@.len() == n,
            rows@.len() == i,
            forall|a: int| 0 <= a < i ==> (#[trigger] rows@[a])@.len() == features@.len(),
            forall|a: int, j: int| 0 <= a < i && 0 <= j < features@.len() ==> (#[trigger] rows@[a])@[j] == (#[trigger] features@[j])@[a],
        decreases n - i,
    {
        let mut row: Vec<T> = Vec::new();
        let mut j: usize = 0;
        while j < features.len()
            invariant
                i < n,
                forall|k: int| 0 <= k < features@.len() ==> (#[trigger] features@[k])@.len() == n,
                j <= features@.len(),
                row@.len() == j,
                forall|k: int| 0 <= k < j ==> row@[k] == (#[trigger] features@[k])@[i as int],
            decreases features@.len() - j,
        {
            let column = &features[j];
            row.push(column[i]);
            j = j + 1;
        }
        rows.push(row);
        i = i + 1;
    }
    rows
}

/// The position of the first data point with id `id`, if any.
pub fn data_point_position(ids: &Vec<u128>, id: u128) -> (res: Option<usize>)
    ensures
        match res {
            Some(i) => i < ids@.len() && ids@[i as int] == id && forall|k: int| 0 <= k < i ==> ids@[k] != id,
            None => forall|k: int| 0 <= k < ids@.len() ==> ids@[k] != id,
        },
{
    let mut i: usize = 0;
    while i < ids.len()
        invariant
            i <= ids@.len(),
            forall|k: int| 0 <= k < i ==> ids@[k] != id,
        decreases ids@.len() - i,
    {
        if ids[i] == id {
            return Some(i);
        }
        i = i + 1;
    }
    None
}

/// Whether a model of this kind is listed under the filter: `llm` lists the
/// LLMs, `classifier` the classifiers, and any other filter, or none, lists
/// every model.
pub open spec fn model_type_selected(filter: Option<Seq<char>>, is_llm: bool) -> bool {
    match filter {
        Some(f) => if f == "llm"@ {
            is_llm
        } else if f == "classifier"@ {
            !is_llm
        } else {
            true
        },
        None => true,
    }
}

/// The positions of the models listed under the filter, in order.
pub open spec fn selected_models(kinds: Seq<bool>, filter: Option<Seq<char>>) -> Seq<usize>
    decreases kinds.len(),
{
    if kinds.len() == 0 {
        Seq::empty()
    } else {
        let prev = selected_models(kinds.drop_last(), filter);
        if model_type_selected(filter, kinds.last()) {
            prev.push((kinds.len() - 1) as usize)
        } else {
            prev
        }
    }
}

/// The texts of an optional string.
pub open spec fn filter_view(f: Option<String>) -> Option<Seq<char>> {
    match f {
        Some(s) => Some(s@),
        None => None,
    }
}

/// Lists the models: the first `limit` positions among the models (given
/// by whether each is an LLM) that the filter selects.
pub fn select_models(kinds: &Vec<bool>, filter: &Option<String>, limit: usize) -> (res: Vec<usize>)
    ensures
        res@ == selected_models(kinds@, filter_view(*filter)).take(
            if limit < selected_models(kinds@, filter_view(*filter)).len() { limit as int } else { selected_models(kinds@, filter_view(*filter)).len() as int },
        ),
{
    let ghost f = filter_view(*filter);
    let (want_llm, want_classifier) = match filter {
        Some(s) => (*s == "llm".to_string(), *s == "classifier".to_string()),
        None => (false, false),
    };
    let mut out: Vec<usize> = Vec::new();
    let mut i: usize = 0;
    while i < kinds.len() && out.len() < limit
        invariant
            i <= kinds@.len(),
            f == filter_view(*filter),
            want_llm == (f is Some && f->0 == "llm"@),
            want_classifier == (f is Some && f->0 == "classifier"@),
            out@ == selected_models(kinds@.take(i as int), f),
            out@.len() <= limit,
        decreases kinds@.len() - i,
    {
        assert(kinds@.take(i + 1).drop_last() =~= kinds@.take(i as int));
        let keep = if want_llm {
            kinds[i]
        } else if want_classifier {
            !kinds[i]
        } else {
            true
        };
        if keep {
            out.push(i);
        }
        i = i + 1;
    }
    proof {
        lemma_selected_prefix(kinds@, f, i as int);
        let all = selected_models(kinds@, f);
        if i == kinds@.len() {
            assert(kinds@.take(i as int) =~= kinds@);
        }
        if out@.len() == limit {
            assert(out@ =~= all.take(limit as int));
        } else {
            assert(kinds@.take(i as int) =~= kinds@);
        }
    }
    out
}

proof fn lemma_selected_prefix(kinds: Seq<bool>, f: Option<Seq<char>>, k: int)
    requires
        0 <= k <= kinds.len(),
    ensures
        selected_models(kinds.take(k), f).len() <= selected_models(kinds, f).len(),
        selected_models(kinds.take(k), f) == selected_models(kinds, f).take(selected_models(kinds.take(k), f).len() as int),
    decreases kinds.len() - k,
{
    if k < kinds.len() {
        lemma_selected_prefix(kinds.drop_last(), f, k);
        assert(kinds.drop_last().take(k) =~= kinds.take(k));
        let all = selected_models(kinds, f);
        let prev = selected_models(kinds.drop_last(), f);
        let part = selected_models(kinds.take(k), f);
        if model_type_selected(f, kinds.last()) {
            assert(all == prev.push((kinds.len() - 1) as usize));
            assert(all.take(part.len() as int) =~= prev.take(part.len() as int));
        }
    } else {
        assert(kinds.take(k) =~= kinds);
        let all = selected_models(kinds, f);
        assert(all.take(all.len() as int) =~= all);
    }
}

/// The id and dataset of a model evaluation.
#[derive(Clone, Debug)]
pub struct EvaluationRef {
    pub model_evaluation_id: u128,
    pub dataset: String,
}

/// The largest of the ids, 0 when there is none.
pub fn last_computed_evaluation_id(ids: &Vec<u128>) -> (res: u128)
    ensures
        ids@.len() == 0 ==> res == 0,
        ids@.len() > 0 ==> ids@.contains(res) && forall|k: int| 0 <= k < ids@.len() ==> ids@[k] <= res,
{
    let mut best: u128 = 0;
    let mut i: usize = 0;
    while i < ids.len()
        invariant
            i <= ids@.len(),
            i == 0 ==> best == 0,
            i > 0 ==> ids@.take(i as int).contains(best),
            forall|k: int| 0 <= k < i ==> ids@[k] <= best,
        decreases ids@.len() - i,
    {
        if i == 0 || ids[i] > best {
            best = ids[i];
            assert(ids@.take(i + 1)[i as int] == best);
        } else {
            let ghost w = choose|w: int| 0 <= w < i && ids@.take(i as int)[w] == best;
            assert(ids@.take(i + 1)[w] == best);
        }
        i = i + 1;
    }
    proof {
        if ids@.len() > 0 {
            assert(ids@.take(i as int) =~= ids@);
        }
    }
    best
}

/// Whether position `i` holds the latest evaluation of `dataset`: the one
/// with the largest id, the last one among equals.
pub open spec fn latest_of_dataset(evals: Seq<EvaluationRef>, dataset: Seq<char>, i: int) -> bool {
    &&& 0 <= i < evals.len()
    &&& evals[i].dataset@ == dataset
    &&& forall|j: int| 0 <= j < evals.len() && (#[trigger] evals[j]).dataset@ == dataset ==> evals[j].model_evaluation_id <= evals[i].model_evaluation_id
    &&& forall|j: int| i < j < evals.len() && (#[trigger] evals[j]).dataset@ == dataset ==> evals[j].model_evaluation_id < evals[i].model_evaluation_id
}

/// Finds the latest evaluation of `dataset`, or says that there is none.
pub fn last_computed_evaluation_id_for_dataset(evaluations: &Vec<EvaluationRef>, dataset: &String) -> (res: Result<usize, String>)
    ensures
        match res {
            Ok(i) => latest_of_dataset(evaluations@, dataset@, i as int),
            Err(e) => (forall|j: int| 0 <= j < evaluations@.len() ==> (#[trigger] evaluations@[j]).dataset@ != dataset@)
                && e@ == "No evaluations found for the dataset `"@ + dataset@ + "`."@,
        },
{
    let mut best: Option<usize> = None;
    let mut i: usize = 0;
    while i < evaluations.len()
        invariant
            i <= evaluations@.len(),
            best is None ==> forall|j: int| 0 <= j < i ==> (#[trigger] evaluations@[j]).dataset@ != dataset@,
            best matches Some(b) ==> {
                &&& b < i
                &&& latest_of_dataset(evaluations@.take(i as int), dataset@, b as int)
            },
        decreases evaluations@.len() - i,
    {
        let ghost prefix = evaluations@.take(i + 1);
        assert(evaluations@.take(i as int) =~= prefix.drop_last());
        if evaluations[i].dataset == *dataset {
            match best {
                None => {
                    best = Some(i);
                },
                Some(b) => {
                    if evaluations[i].model_evaluation_id >= evaluations[b].model_evaluation_id {
                        best = Some(i);
                    }
                },
            }
        }
        proof {
            match best {
                Some(b) => {
                    assert forall|j: int| 0 <= j < prefix.len() && (#[trigger] prefix[j]).dataset@ == dataset@ implies prefix[j].model_evaluation_id <= prefix[b as int].model_evaluation_id by {
                        if j < i {
                            assert(prefix[j] == evaluations@.take(i as int)[j]);
                        }
                    }
                    assert forall|j: int| b < j < prefix.len() && (#[trigger] prefix[j]).dataset@ == dataset@ implies prefix[j].model_evaluation_id < prefix[b as int].model_evaluation_id by {
                        if j < i {
                            assert(prefix[j] == evaluations@.take(i as int)[j]);
                        }
                    }
                },
                None => {},
            }
        }
        i = i + 1;
    }
    assert(evaluations@.take(i as int) =~= evaluations@);
    match best {
        Some(b) => Ok(b),
        None => {
            let mut message = "No evaluations found for the dataset `".to_string();
            message.append(dataset.as_str());
            message.append("`.");
            Err(message)
        },
    }
}

/// Whether `d` is one of the datasets asked for.
pub open spec fn asked(datasets: Seq<String>, d: Seq<char>) -> bool {
    exists|k: int| 0 <= k < datasets.len() && (#[trigger] datasets[k])@ == d
}

/// Whether `d` is one of the datasets asked for.
fn is_asked(datasets: &Vec<String>, d: &String) -> (res: bool)
    ensures
        res == asked(datasets@, d@),
{
    let mut k: usize = 0;
    while k < datasets.len()
        invariant
            k <= datasets@.len(),
            forall|j: int| 0 <= j < k ==> (#[trigger] datasets@[j])@ != d@,
        decreases datasets@.len() - k,
    {
        if datasets[k] == *d {
            return true;
        }
        k = k + 1;
    }
    false
}

/// The positions among the first `n` evaluations of the first evaluation of
/// each dataset asked for, in order.
pub open spec fn first_of_each(evals: Seq<EvaluationRef>, datasets: Seq<String>, n: int) -> Seq<usize>
    decreases n,
{
    if n <= 0 {
        Seq::empty()
    } else {
        let prev = first_of_each(evals, datasets, n - 1);
        let d = evals[n - 1].dataset@;
        if asked(datasets, d) && forall|j: int| 0 <= j < n - 1 ==> (#[trigger] evals[j]).dataset@ != d {
            prev.push((n - 1) as usize)
        } else {
            prev
        }
    }
}

/// Whether position `i` holds, among the first `n` evaluations, the latest
/// of dataset `d`: the one with the largest id, the first one among equals.
pub open spec fn first_latest_of_dataset(evals: Seq<EvaluationRef>, d: Seq<char>, i: int, n: int) -> bool {
    &&& 0 <= i < n
    &&& evals[i].dataset@ == d
    &&& forall|j: int| 0 <= j < n && (#[trigger] evals[j]).dataset@ == d ==> evals[j].model_evaluation_id <= evals[i].model_evaluation_id
    &&& forall|j: int| 0 <= j < i && (#[trigger] evals[j]).dataset@ == d ==> evals[j].model_evaluation_id < evals[i].model_evaluation_id
}

/// The state of the scan of the first `n` evaluations: one position for
/// each dataset asked for that has appeared, each the latest of its
/// dataset so far.
#[verifier::opaque]
pub open spec fn scan_state(evals: Seq<EvaluationRef>, datasets: Seq<String>, n: int, found: Seq<usize>) -> bool {
    &&& 0 <= n <= evals.len()
    &&& found.len() == first_of_each(evals, datasets, n).len()
    &&& forall|k: int| 0 <= k < found.len() ==> asked(datasets, evals[#[trigger] found[k] as int].dataset@)
    &&& forall|k: int| 0 <= k < found.len() ==> first_latest_of_dataset(evals, evals[#[trigger] found[k] as int].dataset@, found[k] as int, n)
    &&& forall|a: int, b: int| 0 <= a < b < found.len() ==> evals[#[trigger] found[a] as int].dataset@ != evals[#[trigger] found[b] as int].dataset@
    &&& forall|j: int| 0 <= j < n && asked(datasets, (#[trigger] evals[j]).dataset@) ==> exists|k: int| 0 <= k < found.len() && evals[found[k] as int].dataset@ == evals[j].dataset@
}

proof fn lemma_scan_start(evals: Seq<EvaluationRef>, datasets: Seq<String>)
    ensures
        scan_state(evals, datasets, 0, Seq::empty()),
{
    reveal(scan_state);
}

proof fn lemma_scan_not_asked(evals: Seq<EvaluationRef>, datasets: Seq<String>, n: int, found: Seq<usize>)
    requires
        scan_state(evals, datasets, n, found),
        n < evals.len(),
        !asked(datasets, evals[n].dataset@),
    ensures
        scan_state(evals, datasets, n + 1, found),
{
    reveal(scan_state);
    assert forall|k: int| 0 <= k < found.len() implies first_latest_of_dataset(evals, evals[#[trigger] found[k] as int].dataset@, found[k] as int, n + 1) by {
        assert(first_latest_of_dataset(evals, evals[found[k] as int].dataset@, found[k] as int, n));
        assert(asked(datasets, evals[found[k] as int].dataset@));
    }
}

proof fn lemma_latest_extend(evals: Seq<EvaluationRef>, d: Seq<char>, i: int, n: int)
    requires
        first_latest_of_dataset(evals, d, i, n),
        0 <= n < evals.len(),
        evals[n].dataset@ != d,
    ensures
        first_latest_of_dataset(evals, d, i, n + 1),
{
}

proof fn lemma_scan_known_others(evals: Seq<EvaluationRef>, datasets: Seq<String>, n: int, found: Seq<usize>, k: int, nf: Seq<usize>)
    requires
        scan_state(evals, datasets, n, found),
        n < evals.len() <= usize::MAX,
        0 <= k < found.len(),
        evals[found[k] as int].dataset@ == evals[n].dataset@,
        nf.len() == found.len(),
        forall|m: int| 0 <= m < found.len() && m != k ==> nf[m] == found[m],
        nf[k] == found[k] || nf[k] == n,
        evals[nf[k] as int].dataset@ == evals[n].dataset@,
        first_latest_of_dataset(evals, evals[n].dataset@, nf[k] as int, n + 1),
    ensures
        scan_state(evals, datasets, n + 1, nf),
{
    reveal(scan_state);
    let d = evals[n].dataset@;
    let f = found[k];
    assert(first_of_each(evals, datasets, n + 1) == first_of_each(evals, datasets, n)) by {
        assert(first_latest_of_dataset(evals, d, f as int, n));
    }
    assert forall|m: int| 0 <= m < nf.len() implies first_latest_of_dataset(evals, evals[#[trigger] nf[m] as int].dataset@, nf[m] as int, n + 1) by {
        if m != k {
            assert(first_latest_of_dataset(evals, evals[found[m] as int].dataset@, found[m] as int, n));
            assert(evals[found[m] as int].dataset@ != d);
            lemma_latest_extend(evals, evals[found[m] as int].dataset@, found[m] as int, n);
        }
    }
    assert forall|m: int| 0 <= m < nf.len() implies asked(datasets, evals[#[trigger] nf[m] as int].dataset@) by {
        assert(asked(datasets, evals[found[m] as int].dataset@));
    }
    assert forall|a: int, b: int| 0 <= a < b < nf.len() implies evals[#[trigger] nf[a] as int].dataset@ != evals[#[trigger] nf[b] as int].dataset@ by {
        assert(evals[found[a] as int].dataset@ != evals[found[b] as int].dataset@);
    }
    assert forall|j: int| 0 <= j < n + 1 && asked(datasets, (#[trigger] evals[j]).dataset@) implies exists|m: int| 0 <= m < nf.len() && evals[nf[m] as int].dataset@ == evals[j].dataset@ by {
        if j < n {
            let m = choose|m: int| 0 <= m < found.len() && evals[found[m] as int].dataset@ == evals[j].dataset@;
            assert(evals[nf[m] as int].dataset@ == evals[j].dataset@);
        } else {
            assert(evals[nf[k] as int].dataset@ == evals[j].dataset@);
        }
    }
}

proof fn lemma_scan_known(evals: Seq<EvaluationRef>, datasets: Seq<String>, n: int, found: Seq<usize>, k: int)
    requires
        scan_state(evals, datasets, n, found),
        n < evals.len() <= usize::MAX,
        0 <= k < found.len(),
        evals[found[k] as int].dataset@ == evals[n].dataset@,
    ensures
        evals[found[k] as int].model_evaluation_id < evals[n].model_evaluation_id ==> scan_state(evals, datasets, n + 1, found.update(k, n as usize)),
        !(evals[found[k] as int].model_evaluation_id < evals[n].model_evaluation_id) ==> scan_state(evals, datasets, n + 1, found),
{
    let d = evals[n].dataset@;
    let f = found[k];
    assert(first_latest_of_dataset(evals, d, f as int, n)) by {
        reveal(scan_state);
    }
    if evals[f as int].model_evaluation_id < evals[n].model_evaluation_id {
        let nf = found.update(k, n as usize);
        assert(first_latest_of_dataset(evals, d, n, n + 1)) by {
            assert forall|j: int| 0 <= j < n + 1 && (#[trigger] evals[j]).dataset@ == d implies evals[j].model_evaluation_id <= evals[n].model_evaluation_id by {
                if j < n {
                    assert(evals[j].model_evaluation_id <= evals[f as int].model_evaluation_id);
                }
            }
            assert forall|j: int| 0 <= j < n && (#[trigger] evals[j]).dataset@ == d implies evals[j].model_evaluation_id < evals[n].model_evaluation_id by {
                assert(evals[j].model_evaluation_id <= evals[f as int].model_evaluation_id);
            }
        }
        lemma_scan_known_others(evals, datasets, n, found, k, nf);
    } else {
        assert(first_latest_of_dataset(evals, d, f as int, n + 1));
        lemma_scan_known_others(evals, datasets, n, found, k, found);
    }
}

proof fn lemma_scan_new(evals: Seq<EvaluationRef>, datasets: Seq<String>, n: int, found: Seq<usize>)
    requires
        scan_state(evals, datasets, n, found),
        n < evals.len() <= usize::MAX,
        asked(datasets, evals[n].dataset@),
        forall|k: int| 0 <= k < found.len() ==> evals[#[trigger] found[k] as int].dataset@ != evals[n].dataset@,
    ensures
        scan_state(evals, datasets, n + 1, found.push(n as usize)),
{
    reveal(scan_state);
    let d = evals[n].dataset@;
    assert forall|j: int| 0 <= j < n implies (#[trigger] evals[j]).dataset@ != d by {
        if evals[j].dataset@ == d {
            let m = choose|m: int| 0 <= m < found.len() && evals[found[m] as int].dataset@ == evals[j].dataset@;
        }
    }
    let nf = found.push(n as usize);
    assert forall|m: int| 0 <= m < nf.len() implies first_latest_of_dataset(evals, evals[#[trigger] nf[m] as int].dataset@, nf[m] as int, n + 1) by {
        if m < found.len() {
            assert(nf[m] == found[m]);
            assert(first_latest_of_dataset(evals, evals[found[m] as int].dataset@, found[m] as int, n));
            assert(evals[found[m] as int].dataset@ != d);
        } else {
            assert(nf[m] == n);
        }
    }
    assert forall|m: int| 0 <= m < nf.len() implies asked(datasets, evals[#[trigger] nf[m] as int].dataset@) by {
        if m < found.len() {
            assert(nf[m] == found[m]);
            assert(asked(datasets, evals[found[m] as int].dataset@));
        } else {
            assert(nf[m] == n);
        }
    }
    assert forall|a: int, b: int| 0 <= a < b < nf.len() implies evals[#[trigger] nf[a] as int].dataset@ != evals[#[trigger] nf[b] as int].dataset@ by {
        assert(nf[a] == found[a]);
        if b < found.len() {
            assert(nf[b] == found[b]);
        }
    }
    assert forall|j: int| 0 <= j < n + 1 && asked(datasets, (#[trigger] evals[j]).dataset@) implies exists|m: int| 0 <= m < nf.len() && evals[nf[m] as int].dataset@ == evals[j].dataset@ by {
        if j < n {
            let m = choose|m: int| 0 <= m < found.len() && evals[found[m] as int].dataset@ == evals[j].dataset@;
            assert(nf[m] == found[m]);
        } else {
            assert(nf[found.len() as int] == n);
        }
    }
}

/// Finds the position of the scanned dataset among those found, if any.
fn position_of_dataset(evaluations: &Vec<EvaluationRef>, found: &Vec<usize>, d: &String) -> (res: Option<usize>)
    requires
        forall|k: int| 0 <= k < found@.len() ==> #[trigger] found@[k] < evaluations@.len(),
    ensures
        match res {
            Some(k) => k < found@.len() && evaluations@[found@[k as int] as int].dataset@ == d@,
            None => forall|k: int| 0 <= k < found@.len() ==> evaluations@[#[trigger] found@[k] as int].dataset@ != d@,
        },
{
    let mut k: usize = 0;
    while k < found.len()
        invariant
            k <= found@.len(),
            forall|m: int| 0 <= m < found@.len() ==> #[trigger] found@[m] < evaluations@.len(),
            forall|m: int| 0 <= m < k ==> evaluations@[#[trigger] found@[m] as int].dataset@ != d@,
        decreases found@.len() - k,
    {
        if evaluations[found[k]].dataset == *d {
            return Some(k);
        }
        k = k + 1;
    }
    None
}

/// The latest evaluation of each dataset asked for, one for each dataset.
/// It fails when no dataset is asked for, and when fewer datasets have
/// evaluations than are asked for (a dataset asked twice counts twice).
pub fn get_last_model_evaluations(evaluations: &Vec<EvaluationRef>, datasets: &Vec<String>) -> (res: Result<Vec<usize>, String>)
    ensures
        datasets@.len() == 0 ==> (res matches Err(e) && e@ == "Datasets length cannot be zero"@),
        datasets@.len() > 0 ==> match res {
            Ok(v) => {
                let n = evaluations@.len() as int;
                &&& first_of_each(evaluations@, datasets@, n).len() >= datasets@.len()
                &&& v@.len() == first_of_each(evaluations@, datasets@, n).len()
                &&& forall|k: int| 0 <= k < v@.len() ==> asked(datasets@, evaluations@[#[trigger] v@[k] as int].dataset@)
                &&& forall|k: int| 0 <= k < v@.len() ==> first_latest_of_dataset(evaluations@, evaluations@[#[trigger] v@[k] as int].dataset@, v@[k] as int, n)
                &&& forall|a: int, b: int| 0 <= a < b < v@.len() ==> evaluations@[#[trigger] v@[a] as int].dataset@ != evaluations@[#[trigger] v@[b] as int].dataset@
            },
            Err(e) => first_of_each(evaluations@, datasets@, evaluations@.len() as int).len() < datasets@.len()
                && e@ == "Not all required datasets have been found"@,
        },
{
    if datasets.len() == 0 {
        return Err("Datasets length cannot be zero".to_string());
    }
    let ghost evals = evaluations@;
    let mut found: Vec<usize> = Vec::new();
    proof {
        lemma_scan_start(evals, datasets@);
    }
    let mut i: usize = 0;
    while i < evaluations.len()
        invariant
            evals == evaluations@,
            i <= evals.len(),
            scan_state(evals, datasets@, i as int, found@),
        decreases evals.len() - i,
    {
        proof {
            reveal(scan_state);
        }
        assert forall|k: int| 0 <= k < found@.len() implies #[trigger] found@[k] < evals.len() by {
            assert(first_latest_of_dataset(evals, evals[found@[k] as int].dataset@, found@[k] as int, i as int));
        }
        let d = &evaluations[i].dataset;
        if is_asked(datasets, d) {
            match position_of_dataset(evaluations, &found, d) {
                Some(k) => {
                    proof {
                        lemma_scan_known(evals, datasets@, i as int, found@, k as int);
                    }
                    let f = found[k];
                    if evaluations[f].model_evaluation_id < evaluations[i].model_evaluation_id {
                        found.set(k, i);
                    }
                },
                None => {
                    proof {
                        lemma_scan_new(evals, datasets@, i as int, found@);
                    }
                    found.push(i);
                },
            }
        } else {
            proof {
                lemma_scan_not_asked(evals, datasets@, i as int, found@);
            }
        }
        i = i + 1;
    }
    proof {
        reveal(scan_state);
    }
    if found.len() < datasets.len() {
        return Err("Not all required datasets have been found".to_string());
    }
    Ok(found)
}

} // verus!
