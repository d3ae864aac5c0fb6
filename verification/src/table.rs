use vstd::prelude::*;
use crate::text::chars_of;

verus! {

/// Lexicographic order of texts by their characters: the order of Rust's
/// `String` comparison (UTF-8 byte order is code point order).
pub open spec fn text_less(a: Seq<char>, b: Seq<char>) -> bool
    decreases a.len(),
{
    if a.len() == 0 {
        b.len() > 0
    } else if b.len() == 0 {
        false
    } else if a[0] != b[0] {
        (a[0] as int) < (b[0] as int)
    } else {
        text_less(a.drop_first(), b.drop_first())
    }
}

/// No text comes before itself.
pub proof fn lemma_text_less_irreflexive(a: Seq<char>)
    ensures
        !text_less(a, a),
    decreases a.len(),
{
    if a.len() > 0 {
        lemma_text_less_irreflexive(a.drop_first());
    }
}

/// Of two different texts, one comes before the other, and never both.
pub proof fn lemma_text_less_total(a: Seq<char>, b: Seq<char>)
    ensures
        a != b ==> (text_less(a, b) || text_less(b, a)),
        !(text_less(a, b) && text_less(b, a)),
    decreases a.len(),
{
    if a.len() > 0 && b.len() > 0 {
        if a[0] == b[0] {
            lemma_text_less_total(a.drop_first(), b.drop_first());
            if a.drop_first() == b.drop_first() {
                assert(a =~= seq![a[0]] + a.drop_first());
                assert(b =~= seq![b[0]] + b.drop_first());
            }
        } else {
            assert((a[0] as int) != (b[0] as int));
        }
    } else if a.len() == 0 && b.len() == 0 {
        assert(a =~= b);
    }
}

/// The order of texts is transitive.
pub proof fn lemma_text_less_transitive(a: Seq<char>, b: Seq<char>, c: Seq<char>)
    requires
        text_less(a, b),
        text_less(b, c),
    ensures
        text_less(a, c),
    decreases a.len(),
{
    if a.len() > 0 && b.len() > 0 && c.len() > 0 {
        if a[0] == b[0] && b[0] == c[0] {
            lemma_text_less_transitive(a.drop_first(), b.drop_first(), c.drop_first());
        }
    }
}

/// Each text of `keys` comes before every later one.
pub open spec fn strictly_sorted(keys: Seq<Seq<char>>) -> bool {
    forall|i: int, j: int| 0 <= i < j < keys.len() ==> text_less(#[trigger] keys[i], #[trigger] keys[j])
}

/// Two strictly sorted sequences of texts with the same elements are equal.
pub proof fn lemma_sorted_unique(a: Seq<Seq<char>>, b: Seq<Seq<char>>)
    requires
        strictly_sorted(a),
        strictly_sorted(b),
        a.to_set() == b.to_set(),
    ensures
        a == b,
    decreases a.len(),
{
    if a.len() == 0 {
        if b.len() > 0 {
            assert(b.to_set().contains(b[0]));
        }
        assert(a =~= b);
    } else {
        assert(a.to_set().contains(a[0]));
        assert(b.to_set().contains(a[0]));
        let j = choose|j: int| 0 <= j < b.len() && b[j] == a[0];
        assert(b.to_set().contains(b[0]));
        assert(a.to_set().contains(b[0]));
        let i = choose|i: int| 0 <= i < a.len() && a[i] == b[0];
        if a[0] != b[0] {
            assert(j > 0);
            assert(i > 0);
            assert(text_less(b[0], b[j]));
            assert(text_less(a[0], a[i]));
            lemma_text_less_total(a[0], b[0]);
        }
        let a1 = a.drop_first();
        let b1 = b.drop_first();
        assert forall|x: Seq<char>| a1.to_set().contains(x) implies b1.to_set().contains(x) by {
            let k = choose|k: int| 0 <= k < a1.len() && a1[k] == x;
            assert(a[k + 1] == x);
            assert(text_less(a[0], a[k + 1]));
            lemma_text_less_irreflexive(x);
            assert(a.to_set().contains(x));
            let m = choose|m: int| 0 <= m < b.len() && b[m] == x;
            assert(m != 0);
            assert(b1[m - 1] == x);
        }
        assert forall|x: Seq<char>| b1.to_set().contains(x) implies a1.to_set().contains(x) by {
            let k = choose|k: int| 0 <= k < b1.len() && b1[k] == x;
            assert(b[k + 1] == x);
            assert(text_less(b[0], b[k + 1]));
            lemma_text_less_irreflexive(x);
            assert(b.to_set().contains(x));
            let m = choose|m: int| 0 <= m < a.len() && a[m] == x;
            assert(m != 0);
            assert(a1[m - 1] == x);
        }
        assert(a1.to_set() =~= b1.to_set());
        lemma_sorted_unique(a1, b1);
        assert(a =~= seq![a[0]] + a1);
        assert(b =~= seq![b[0]] + b1);
    }
}

/// The texts of a sequence of strings.
pub open spec fn strings_view(s: Seq<String>) -> Seq<Seq<char>> {
    s.map_values(|x: String| x@)
}

/// Whether `a` comes before `b` in the order of texts.
pub fn text_less_exec(a: &str, b: &str) -> (res: bool)
    ensures
        res == text_less(a@, b@),
{
    let ca = chars_of(a);
    let cb = chars_of(b);
    let mut i: usize = 0;
    assert(a@.skip(0) =~= a@);
    assert(b@.skip(0) =~= b@);
    while i < ca.len() && i < cb.len()
        invariant
            ca@ == a@,
            cb@ == b@,
            i <= ca@.len(),
            i <= cb@.len(),
            text_less(a@, b@) == text_less(a@.skip(i as int), b@.skip(i as int)),
        decreases ca@.len() - i,
    {
        if ca[i] != cb[i] {
            assert(a@.skip(i as int)[0] == ca@[i as int]);
            assert(b@.skip(i as int)[0] == cb@[i as int]);
            return ca[i] < cb[i];
        }
        assert(a@.skip(i as int).drop_first() =~= a@.skip(i + 1));
        assert(b@.skip(i as int).drop_first() =~= b@.skip(i + 1));
        i = i + 1;
    }
    i < cb.len()
}

/// The distinct texts of `names`, in increasing order.
pub open spec fn sorted_keys(names: Seq<Seq<char>>) -> Seq<Seq<char>> {
    choose|keys: Seq<Seq<char>>| strictly_sorted(keys) && keys.to_set() == names.to_set()
}

proof fn lemma_sorted_insert(keys: Seq<Seq<char>>, p: int, name: Seq<char>)
    requires
        strictly_sorted(keys),
        0 <= p <= keys.len(),
        forall|q: int| 0 <= q < p ==> text_less(#[trigger] keys[q], name),
        p < keys.len() ==> text_less(name, keys[p]),
    ensures
        strictly_sorted(keys.insert(p, name)),
{
    let n = keys.insert(p, name);
    assert forall|i: int, j: int| 0 <= i < j < n.len() implies text_less(#[trigger] n[i], #[trigger] n[j]) by {
        if j < p {
            assert(n[i] == keys[i] && n[j] == keys[j]);
        } else if j == p {
            assert(n[i] == keys[i]);
        } else if i < p {
            assert(n[i] == keys[i] && n[j] == keys[j - 1]);
            assert(text_less(keys[i], name));
            assert(text_less(name, keys[p]));
            lemma_text_less_transitive(keys[i], name, keys[p]);
            if j - 1 > p {
                lemma_text_less_transitive(keys[i], keys[p], keys[j - 1]);
            }
        } else if i == p {
            assert(n[j] == keys[j - 1]);
            if j - 1 > p {
                lemma_text_less_transitive(name, keys[p], keys[j - 1]);
            }
        } else {
            assert(n[i] == keys[i - 1] && n[j] == keys[j - 1]);
        }
    }
}

/// The distinct column names of a header row, in increasing order.
pub fn sorted_keys_of(headers: &Vec<String>) -> (res: Vec<String>)
    ensures
        strings_view(res@) == sorted_keys(strings_view(headers@)),
{
    let mut keys: Vec<String> = Vec::new();
    let mut h: usize = 0;
    while h < headers.len()
        invariant
            h <= headers@.len(),
            strictly_sorted(strings_view(keys@)),
            strings_view(keys@).to_set() == strings_view(headers@.take(h as int)).to_set(),
        decreases headers@.len() - h,
    {
        let name = &headers[h];
        let ghost kv = strings_view(keys@);
        let mut p: usize = 0;
        while p < keys.len()
            invariant
                p <= keys@.len(),
                kv == strings_view(keys@),
                forall|q: int| 0 <= q < p ==> text_less(#[trigger] kv[q], name@),
            ensures
                p <= keys@.len(),
                forall|q: int| 0 <= q < p ==> text_less(#[trigger] kv[q], name@),
                p < keys@.len() ==> !text_less(kv[p as int], name@),
            decreases keys@.len() - p,
        {
            if !text_less_exec(keys[p].as_str(), name.as_str()) {
                break;
            }
            p = p + 1;
        }
        proof {
            assert(strings_view(headers@.take(h + 1)) =~= strings_view(headers@.take(h as int)).push(name@));
            strings_view(headers@.take(h as int)).lemma_push_to_set_commute(name@);
        }
        if p < keys.len() && keys[p] == *name {
            proof {
                assert(kv[p as int] == name@);
                assert(kv.to_set().contains(name@));
                assert(kv.to_set().insert(name@) =~= kv.to_set());
            }
        } else {
            proof {
                if p < keys@.len() {
                    lemma_text_less_total(kv[p as int], name@);
                }
                lemma_sorted_insert(kv, p as int, name@);
            }
            keys.insert(p, name.clone());
            proof {
                assert(strings_view(keys@) =~= kv.insert(p as int, name@));
                assert(kv.insert(p as int, name@).to_set() =~= kv.to_set().insert(name@)) by {
                    assert forall|x: Seq<char>| kv.insert(p as int, name@).to_set().contains(x) implies kv.to_set().insert(name@).contains(x) by {
                        let k = choose|k: int| 0 <= k < kv.len() + 1 && kv.insert(p as int, name@)[k] == x;
                        if k < p {
                            assert(kv[k] == x);
                        } else if k > p {
                            assert(kv[k - 1] == x);
                        }
                    }
                    assert forall|x: Seq<char>| kv.to_set().insert(name@).contains(x) implies kv.insert(p as int, name@).to_set().contains(x) by {
                        if x == name@ {
                            assert(kv.insert(p as int, name@)[p as int] == x);
                        } else {
                            let k = choose|k: int| 0 <= k < kv.len() && kv[k] == x;
                            if k < p {
                                assert(kv.insert(p as int, name@)[k] == x);
                            } else {
                                assert(kv.insert(p as int, name@)[k + 1] == x);
                            }
                        }
                    }
                }
            }
        }
        h = h + 1;
    }
    proof {
        assert(headers@.take(headers@.len() as int) =~= headers@);
        let target = strings_view(headers@);
        assert(strictly_sorted(strings_view(keys@)) && strings_view(keys@).to_set() == target.to_set());
        let chosen = sorted_keys(target);
        lemma_sorted_unique(strings_view(keys@), chosen);
    }
    keys
}

/// The records of a CSV text: the names of the header row and, for each
/// later row, its fields or the message of the error met reading it.
pub struct CsvRecords {
    pub headers: Vec<String>,
    pub records: Vec<Result<Vec<String>, String>>,
}

/// The view of one record.
pub open spec fn record_view(r: Result<Vec<String>, String>) -> Result<Seq<Seq<char>>, Seq<char>> {
    match r {
        Ok(fields) => Ok(strings_view(fields@)),
        Err(e) => Err(e@),
    }
}

impl CsvRecords {
    /// Every record read has one field for each column.
    pub open spec fn wf(&self) -> bool {
        forall|i: int| 0 <= i < self.records@.len() ==> (#[trigger] self.records@[i] matches Ok(fields) ==> fields@.len() == self.headers@.len())
    }

    /// The views of the records.
    pub open spec fn records_view(&self) -> Seq<Result<Seq<Seq<char>>, Seq<char>>> {
        self.records@.map_values(|r: Result<Vec<String>, String>| record_view(r))
    }
}

/// What the `csv` crate's default reader makes of a text: the header row and
/// the outcome of reading each later row, or the message of the error met
/// reading the header row.
pub uninterp spec fn csv_records_of(text: Seq<char>) -> Result<(Seq<Seq<char>>, Seq<Result<Seq<Seq<char>>, Seq<char>>>), Seq<char>>;

/// Reads `text` with `csv::ReaderBuilder::new().from_reader(..)`: its
/// `headers()`, then each item of `records()`, the fields of a record as
/// strings and an error as its message. Claimed: the outcome is the named
/// `csv_records_of` of the text, and, the reader not being flexible, every
/// record it yields has as many fields as the header row. Which texts are
/// valid CSV is not stated.
#[verifier::external_body]
fn read_csv(text: &str) -> (res: Result<CsvRecords, String>)
    ensures
        match res {
            Ok(t) => t.wf() && csv_records_of(text@) == Ok::<(Seq<Seq<char>>, Seq<Result<Seq<Seq<char>>, Seq<char>>>), Seq<char>>((strings_view(t.headers@), t.records_view())),
            Err(e) => csv_records_of(text@) == Err::<(Seq<Seq<char>>, Seq<Result<Seq<Seq<char>>, Seq<char>>>), Seq<char>>(e@),
        },
{
    let mut reader = csv::ReaderBuilder::new().from_reader(text.as_bytes());
    let headers: Vec<String> = match reader.headers() {
        Ok(h) => h.iter().map(|f| f.to_string()).collect(),
        Err(e) => return Err(e.to_string()),
    };
    let records = reader.records().map(|r| match r {
        Ok(record) => Ok(record.iter().map(|f| f.to_string()).collect()),
        Err(e) => Err(e.to_string()),
    }).collect();
    Ok(CsvRecords { headers, records })
}

/// Reads the records of a CSV text.
pub fn read_csv_records(text: &str) -> (res: Result<CsvRecords, String>)
    ensures
        match res {
            Ok(t) => t.wf() && csv_records_of(text@) == Ok::<(Seq<Seq<char>>, Seq<Result<Seq<Seq<char>>, Seq<char>>>), Seq<char>>((strings_view(t.headers@), t.records_view())),
            Err(e) => csv_records_of(text@) == Err::<(Seq<Seq<char>>, Seq<Result<Seq<Seq<char>>, Seq<char>>>), Seq<char>>(e@),
        },
{
    read_csv(text)
}

/// The message of the first record that could not be read, if any.
pub open spec fn first_error(recs: Seq<Result<Seq<Seq<char>>, Seq<char>>>) -> Option<Seq<char>>
    decreases recs.len(),
{
    if recs.len() == 0 {
        None
    } else {
        match first_error(recs.drop_last()) {
            Some(e) => Some(e),
            None => match recs.last() {
                Err(e) => Some(e),
                Ok(_) => None,
            },
        }
    }
}

/// The fields of the records (those of a record that could not be read
/// count as empty).
pub open spec fn ok_rows(recs: Seq<Result<Seq<Seq<char>>, Seq<char>>>) -> Seq<Seq<Seq<char>>> {
    recs.map_values(|r: Result<Seq<Seq<char>>, Seq<char>>| match r {
        Ok(fields) => fields,
        Err(_) => Seq::<Seq<char>>::empty(),
    })
}

/// The table of a CSV text, every row read: the header row and the rows, or
/// the message of the first error met.
pub open spec fn csv_table_of(text: Seq<char>) -> Result<(Seq<Seq<char>>, Seq<Seq<Seq<char>>>), Seq<char>> {
    match csv_records_of(text) {
        Err(e) => Err(e),
        Ok((headers, recs)) => match first_error(recs) {
            Some(e) => Err(e),
            None => Ok((headers, ok_rows(recs))),
        },
    }
}

proof fn lemma_first_error_prefix(recs: Seq<Result<Seq<Seq<char>>, Seq<char>>>, k: int)
    requires
        0 <= k <= recs.len(),
        first_error(recs.take(k)) is Some,
    ensures
        first_error(recs) == first_error(recs.take(k)),
    decreases recs.len() - k,
{
    if k < recs.len() {
        assert(recs.drop_last().take(k) =~= recs.take(k));
        lemma_first_error_prefix(recs.drop_last(), k);
    } else {
        assert(recs.take(k) =~= recs);
    }
}

/// A table read from CSV text: the names of the header row and the rows.
pub struct CsvTable {
    pub headers: Vec<String>,
    pub rows: Vec<Vec<String>>,
}

impl CsvTable {
    /// Every row has one field for each column.
    pub open spec fn wf(&self) -> bool {
        forall|i: int| 0 <= i < self.rows@.len() ==> (#[trigger] self.rows@[i])@.len() == self.headers@.len()
    }

    /// The texts of the rows.
    pub open spec fn rows_view(&self) -> Seq<Seq<Seq<char>>> {
        self.rows@.map_values(|r: Vec<String>| strings_view(r@))
    }
}

/// Copies a row of strings.
fn copy_row(row: &Vec<String>) -> (res: Vec<String>)
    ensures
        strings_view(res@) == strings_view(row@),
{
    let mut out: Vec<String> = Vec::new();
    let mut i: usize = 0;
    while i < row.len()
        invariant
            i <= row@.len(),
            out@.len() == i,
            forall|k: int| 0 <= k < i ==> (#[trigger] out@[k])@ == row@[k]@,
        decreases row@.len() - i,
    {
        let c = row[i].clone();
        assert(c@ == row@[i as int]@);
        out.push(c);
        i = i + 1;
    }
    assert(strings_view(out@) =~= strings_view(row@));
    out
}

/// The table of the records, or the message of the first record that could
/// not be read.
pub fn records_to_table(records: &CsvRecords) -> (res: Result<CsvTable, String>)
    requires
        records.wf(),
    ensures
        match res {
            Ok(t) => t.wf() && first_error(records.records_view()) is None && strings_view(t.headers@)
                == strings_view(records.headers@) && t.rows_view() == ok_rows(records.records_view()),
            Err(e) => first_error(records.records_view()) == Some(e@),
        },
{
    let ghost recs = records.records_view();
    let mut rows: Vec<Vec<String>> = Vec::new();
    let mut i: usize = 0;
    while i < records.records.len()
        invariant
            records.wf(),
            recs == records.records_view(),
            i <= recs.len(),
            first_error(recs.take(i as int)) is None,
            rows@.len() == i,
            forall|k: int| 0 <= k < i ==> (#[trigger] rows@[k])@.len() == records.headers@.len(),
            forall|k: int| 0 <= k < i ==> strings_view((#[trigger] rows@[k])@) == ok_rows(recs)[k],
        decreases recs.len() - i,
    {
        assert(recs.take(i + 1).drop_last() =~= recs.take(i as int));
        assert(recs.take(i + 1).last() == recs[i as int]);
        match &records.records[i] {
            Err(e) => {
                proof {
                    lemma_first_error_prefix(recs, i + 1);
                }
                return Err(e.clone());
            },
            Ok(fields) => {
                let copy = copy_row(fields);
                proof {
                    assert(strings_view(copy@).len() == copy@.len());
                    assert(strings_view(fields@).len() == fields@.len());
                }
                rows.push(copy);
            },
        }
        i = i + 1;
    }
    assert(recs.take(i as int) =~= recs);
    let headers = copy_row(&records.headers);
    let t = CsvTable { headers, rows };
    assert(t.rows_view() =~= ok_rows(recs));
    proof {
        assert(strings_view(headers@).len() == headers@.len());
        assert(strings_view(records.headers@).len() == records.headers@.len());
    }
    Ok(t)
}

/// Reads a CSV text into a table, failing on the first row that cannot be
/// read.
pub fn parse_csv_table(text: &str) -> (res: Result<CsvTable, String>)
    ensures
        match res {
            Ok(t) => t.wf() && csv_table_of(text@) == Ok::<(Seq<Seq<char>>, Seq<Seq<Seq<char>>>), Seq<char>>((strings_view(t.headers@), t.rows_view())),
            Err(e) => csv_table_of(text@) == Err::<(Seq<Seq<char>>, Seq<Seq<Seq<char>>>), Seq<char>>(e@),
        },
{
    match read_csv(text) {
        Err(e) => Err(e),
        Ok(records) => records_to_table(&records),
    }
}

/// The position of the last column named `key`, if there is one.
pub open spec fn last_column(headers: Seq<Seq<char>>, key: Seq<char>) -> Option<int>
    decreases headers.len(),
{
    if headers.len() == 0 {
        None
    } else if headers.last() == key {
        Some(headers.len() - 1)
    } else {
        last_column(headers.drop_last(), key)
    }
}

/// The value of the column `key` in `row`; of several columns with that name
/// the last counts, as in a map from column names to values.
pub open spec fn cell(headers: Seq<Seq<char>>, row: Seq<Seq<char>>, key: Seq<char>) -> Option<Seq<char>> {
    match last_column(headers, key) {
        Some(i) => Some(row[i]),
        None => None,
    }
}

/// `last_column` names a column of that name, and finds one whenever there is one.
pub proof fn lemma_last_column(headers: Seq<Seq<char>>, key: Seq<char>)
    ensures
        match last_column(headers, key) {
            Some(i) => 0 <= i < headers.len() && headers[i] == key,
            None => !headers.contains(key),
        },
    decreases headers.len(),
{
    if headers.len() > 0 && headers.last() != key {
        lemma_last_column(headers.drop_last(), key);
        if headers.contains(key) {
            let k = choose|k: int| 0 <= k < headers.len() && headers[k] == key;
            assert(headers.drop_last()[k] == key);
        }
    }
}

/// The position of the last column named `key`, if there is one.
pub fn column_of(headers: &Vec<String>, key: &str) -> (res: Option<usize>)
    ensures
        match res {
            Some(i) => last_column(strings_view(headers@), key@) == Some(i as int),
            None => last_column(strings_view(headers@), key@) is None,
        },
{
    let target = key.to_string();
    assert(target@ == key@);
    let ghost hv = strings_view(headers@);
    let mut i: usize = headers.len();
    assert(hv.take(i as int) =~= hv);
    while i > 0
        invariant
            i <= headers@.len(),
            hv == strings_view(headers@),
            target@ == key@,
            last_column(hv, key@) == last_column(hv.take(i as int), key@),
        decreases i,
    {
        if headers[i - 1] == target {
            assert(hv[i - 1] == headers@[i - 1]@);
            assert(hv.take(i as int).len() == i);
            assert(hv.take(i as int).last() == key@);
            assert(last_column(hv.take(i as int), key@) == Some(i - 1));
            return Some(i - 1);
        }
        assert(hv.take(i as int).drop_last() =~= hv.take(i - 1));
        i = i - 1;
    }
    None
}

/// The value of the column `key` in `row`.
pub fn cell_value<'a>(headers: &Vec<String>, row: &'a Vec<String>, key: &str) -> (res: Option<&'a String>)
    requires
        row@.len() == headers@.len(),
    ensures
        match res {
            Some(v) => cell(strings_view(headers@), strings_view(row@), key@) == Some(v@),
            None => cell(strings_view(headers@), strings_view(row@), key@) is None,
        },
{
    proof {
        lemma_last_column(strings_view(headers@), key@);
    }
    match column_of(headers, key) {
        Some(i) => Some(&row[i]),
        None => None,
    }
}

} // verus!
