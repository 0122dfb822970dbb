//! The report layout: which columns the report has, in which order and how wide,
//! reconciled over the totals labels of every act of a batch.
use vstd::prelude::*;
use crate::act::{rows_view, Act, TotalsRow};
use crate::error::Error;
use crate::utils::{column_letters, get_xl_column_letter};
use crate::text::{
    chars_of, lemma_text_lt_irreflexive, lemma_text_lt_total, lemma_text_lt_transitive, seq_contains, str_eq,
    text_less, text_lt, vec_contains,
};

verus! {

/// Where a pinned column goes: `No` keeps a totals column in the totals region
/// (under its rename), `Yes` emits it in place among the header columns, `Del`
/// suppresses it.
#[derive(Clone, Copy, Debug, PartialEq, Eq, Structural)]
pub enum Moving {
    No,
    Yes,
    Del,
}

/// How a totals column's label is compared with a row label.
#[derive(Clone, Copy, Debug, PartialEq, Eq, Structural)]
pub enum Matches {
    Exact,
    Contains,
}

/// Where a column's data comes from: a header field, a totals label at current or at
/// base prices, or a value computed from the act.
#[derive(Debug)]
pub enum Source {
    InTableHeader(&'static str),
    AtCurrPrices(String, Matches),
    AtBasePrices(String, Matches),
    Calculate(&'static str),
}

/// One output column (or a group of `expected_columns` repeated columns).
#[derive(Debug)]
pub struct ExtractionConfig {
    pub rename: Option<&'static str>,
    pub moving: Moving,
    pub sequence_number: usize,
    pub expected_columns: u16,
    pub source: Source,
}

/// The mathematical content of a `Source`.
pub enum SourceView {
    InTableHeader(Seq<char>),
    AtCurrPrices(Seq<char>, Matches),
    AtBasePrices(Seq<char>, Matches),
    Calculate(Seq<char>),
}

/// The mathematical content of an `ExtractionConfig`.
pub struct ExtractionConfigView {
    pub rename: Option<Seq<char>>,
    pub moving: Moving,
    pub sequence_number: usize,
    pub expected_columns: u16,
    pub source: SourceView,
}

impl View for Source {
    type V = SourceView;

    open spec fn view(&self) -> SourceView {
        match self {
            Source::InTableHeader(s) => SourceView::InTableHeader(s@),
            Source::AtCurrPrices(s, m) => SourceView::AtCurrPrices(s@, *m),
            Source::AtBasePrices(s, m) => SourceView::AtBasePrices(s@, *m),
            Source::Calculate(s) => SourceView::Calculate(s@),
        }
    }
}

/// The mathematical content of a rename.
pub open spec fn rename_view(r: Option<&'static str>) -> Option<Seq<char>> {
    match r {
        Some(s) => Some(s@),
        None => None,
    }
}

impl View for ExtractionConfig {
    type V = ExtractionConfigView;

    open spec fn view(&self) -> ExtractionConfigView {
        ExtractionConfigView {
            rename: rename_view(self.rename),
            moving: self.moving,
            sequence_number: self.sequence_number,
            expected_columns: self.expected_columns,
            source: self.source@,
        }
    }
}

/// The views of a list of columns.
pub open spec fn configs_view(v: Seq<ExtractionConfig>) -> Seq<ExtractionConfigView> {
    Seq::new(v.len(), |i: int| v[i]@)
}

/// The emitted width of a list of columns: suppressed columns take none.
pub open spec fn col_sum(v: Seq<ExtractionConfigView>) -> int
    decreases v.len(),
{
    if v.len() == 0 {
        0
    } else {
        col_sum(v.drop_last()) + if v.last().moving == Moving::Del {
            0int
        } else {
            v.last().expected_columns as int
        }
    }
}

/// The number of columns of a list that are not suppressed.
pub open spec fn kept_count(v: Seq<ExtractionConfigView>) -> int
    decreases v.len(),
{
    if v.len() == 0 {
        0
    } else {
        kept_count(v.drop_last()) + if v.last().moving == Moving::Del {
            0int
        } else {
            1int
        }
    }
}

/// The width of a list bounds the width of each of its prefixes.
pub(crate) proof fn lemma_col_sum_prefix(v: Seq<ExtractionConfigView>, k: int)
    requires
        0 <= k <= v.len(),
    ensures
        0 <= col_sum(v.take(k)) <= col_sum(v),
        0 <= kept_count(v.take(k)) <= k,
    decreases v.len(),
{
    if k < v.len() {
        assert(v.drop_last().take(k) =~= v.take(k));
        lemma_col_sum_prefix(v.drop_last(), k);
    } else {
        assert(v.take(k) =~= v);
        lemma_col_sum_nonneg(v);
    }
}

proof fn lemma_col_sum_nonneg(v: Seq<ExtractionConfigView>)
    ensures
        col_sum(v) >= 0,
        0 <= kept_count(v) <= v.len(),
    decreases v.len(),
{
    if v.len() > 0 {
        lemma_col_sum_nonneg(v.drop_last());
    }
}

proof fn lemma_take_step(v: Seq<ExtractionConfigView>, k: int)
    requires
        0 <= k < v.len(),
    ensures
        v.take(k + 1).drop_last() == v.take(k),
        v.take(k + 1).last() == v[k],
{
    assert(v.take(k + 1).drop_last() =~= v.take(k));
}

/// The kind of column a lookup asks for, by its name.
pub open spec fn kind_is(kind: Seq<char>, source: SourceView) -> bool {
    match source {
        SourceView::AtBasePrices(_, _) => kind == "base"@,
        SourceView::AtCurrPrices(_, _) => kind == "curr"@,
        SourceView::Calculate(_) => kind == "calc"@,
        SourceView::InTableHeader(_) => kind == "header"@,
    }
}

/// Whether column `c` is the one that a lookup for `name` of `kind` finds.
pub open spec fn hit(c: ExtractionConfigView, kind: Seq<char>, name: Seq<char>, matches: Matches) -> bool {
    c.moving != Moving::Del && kind_is(kind, c.source) && match c.source {
        SourceView::Calculate(text) => name == text,
        SourceView::InTableHeader(text) => name == text,
        SourceView::AtBasePrices(text, m) => m == matches && match m {
            Matches::Exact => name == text,
            Matches::Contains => seq_contains(name, text),
        },
        SourceView::AtCurrPrices(text, m) => m == matches && match m {
            Matches::Exact => name == text,
            Matches::Contains => seq_contains(name, text),
        },
    }
}

/// The first column at `k` or later that a lookup finds.
pub open spec fn first_hit(v: Seq<ExtractionConfigView>, kind: Seq<char>, name: Seq<char>, matches: Matches, k: nat) -> Option<nat>
    decreases v.len() - k,
{
    if k >= v.len() {
        None
    } else if hit(v[k as int], kind, name, matches) {
        Some(k)
    } else {
        first_hit(v, kind, name, matches, k + 1)
    }
}

/// A lookup's kind is one of the four that columns have.
pub open spec fn valid_kind(kind: Seq<char>) -> bool {
    kind == "base"@ || kind == "curr"@ || kind == "calc"@ || kind == "header"@
}

/// An ordered list of columns with its emitted width.
#[derive(Debug)]
pub struct ExcelDataSet {
    vector: Vec<ExtractionConfig>,
    number_of_columns: u16,
}

impl View for ExcelDataSet {
    type V = Seq<ExtractionConfigView>;

    closed spec fn view(&self) -> Seq<ExtractionConfigView> {
        configs_view(self.vector@)
    }
}

impl ExcelDataSet {
    /// The recorded emitted width.
    pub closed spec fn width(&self) -> int {
        self.number_of_columns as int
    }

    /// The width is that of the columns.
    pub closed spec fn wf(&self) -> bool {
        self.number_of_columns as int == col_sum(configs_view(self.vector@))
    }

    /// A well-formed list's width fits the report's column index type.
    pub proof fn lemma_width_fits(&self)
        requires
            self.wf(),
        ensures
            0 <= col_sum(self@) <= u16::MAX,
    {
        lemma_col_sum_nonneg(self@);
    }

    /// A column list; its width must fit the report's column index type.
    pub fn new(vector: Vec<ExtractionConfig>) -> (r: ExcelDataSet)
        requires
            col_sum(configs_view(vector@)) <= u16::MAX,
        ensures
            r@ == configs_view(vector@),
            r.wf(),
            r.width() == col_sum(r@),
    {
        let number_of_columns = Self::count_col(&vector);
        ExcelDataSet { vector, number_of_columns }
    }

    /// The emitted width.
    pub fn get_number_of_columns(&self) -> (r: u16)
        ensures
            r == self.width(),
    {
        self.number_of_columns
    }

    /// The columns, for reading.
    pub fn columns(&self) -> (r: &Vec<ExtractionConfig>)
        ensures
            configs_view(r@) == self@,
    {
        &self.vector
    }

    /// The emitted width of `vector`.
    fn count_col(vector: &Vec<ExtractionConfig>) -> (r: u16)
        requires
            col_sum(configs_view(vector@)) <= u16::MAX,
        ensures
            r == col_sum(configs_view(vector@)),
    {
        let ghost v = configs_view(vector@);
        let mut acc: u16 = 0;
        let mut i: usize = 0;
        while i < vector.len()
            invariant
                v == configs_view(vector@),
                col_sum(v) <= u16::MAX,
                i <= vector@.len(),
                acc == col_sum(v.take(i as int)),
            decreases vector@.len() - i,
        {
            proof {
                lemma_take_step(v, i as int);
                lemma_col_sum_prefix(v, i + 1);
            }
            match vector[i].moving {
                Moving::Del => {},
                _ => {
                    acc = acc + vector[i].expected_columns;
                },
            }
            i += 1;
        }
        assert(v.take(i as int) =~= v);
        acc
    }

    /// The place of the first column that a lookup for `name` of `kind` finds: its
    /// index among the columns that are not suppressed, and its first column number.
    pub fn get_index_and_address_by_columns(&self, kind: &str, name: &str, matches: Matches) -> (r: Option<(usize, u16)>)
        requires
            self.wf(),
            valid_kind(kind@),
        ensures
            match first_hit(self@, kind@, name@, matches, 0) {
                Some(p) => r == Some((kept_count(self@.take(p as int)) as usize, col_sum(self@.take(p as int)) as u16)),
                None => r is None,
            },
    {
        let ghost v = self@;
        let is_base = str_eq(kind, "base");
        let is_curr = str_eq(kind, "curr");
        let is_calc = str_eq(kind, "calc");
        let is_header = str_eq(kind, "header");
        let name_chars = chars_of(name);
        let mut counter: u16 = 0;
        let mut index: usize = 0;
        let mut i: usize = 0;
        while i < self.vector.len()
            invariant
                v == self@,
                v == configs_view(self.vector@),
                self.wf(),
                valid_kind(kind@),
                is_base == (kind@ == "base"@),
                is_curr == (kind@ == "curr"@),
                is_calc == (kind@ == "calc"@),
                is_header == (kind@ == "header"@),
                name_chars@ == name@,
                i <= self.vector@.len(),
                first_hit(v, kind@, name@, matches, 0) == first_hit(v, kind@, name@, matches, i as nat),
                counter == col_sum(v.take(i as int)),
                index == kept_count(v.take(i as int)),
            decreases self.vector@.len() - i,
        {
            proof {
                lemma_take_step(v, i as int);
                lemma_col_sum_prefix(v, i + 1);
                lemma_col_sum_prefix(v, i as int);
                lemma_col_sum_nonneg(v);
            }
            let c = &self.vector[i];
            let found = match c.moving {
                Moving::Del => false,
                _ => match &c.source {
                    Source::Calculate(text) => is_calc && str_eq(name, text),
                    Source::InTableHeader(text) => is_header && str_eq(name, text),
                    Source::AtBasePrices(text, m) => is_base && *m == matches && match m {
                        Matches::Exact => str_eq(name, text.as_str()),
                        Matches::Contains => vec_contains(&name_chars, &chars_of(text.as_str())),
                    },
                    Source::AtCurrPrices(text, m) => is_curr && *m == matches && match m {
                        Matches::Exact => str_eq(name, text.as_str()),
                        Matches::Contains => vec_contains(&name_chars, &chars_of(text.as_str())),
                    },
                },
            };
            if found {
                return Some((index, counter));
            }
            match c.moving {
                Moving::Del => {},
                _ => {
                    index = index + 1;
                    counter = counter + c.expected_columns;
                },
            }
            i += 1;
        }
        None
    }
}

/// One label's statistics over a batch: the furthest row it took below the start of
/// a totals block, and the most physical rows it had in one act.
pub struct Entry {
    pub name: Seq<char>,
    pub rel: int,
    pub count: int,
}

/// The largest of a list of row numbers (0 for none).
pub open spec fn seq_max(s: Seq<usize>) -> int
    decreases s.len(),
{
    if s.len() == 0 {
        0
    } else if s.last() > seq_max(s.drop_last()) {
        s.last() as int
    } else {
        seq_max(s.drop_last())
    }
}

/// The statistics that one act gives, record by record.
pub open spec fn act_entries(a: Act) -> Seq<Entry> {
    Seq::new(
        a.data_of_totals@.len(),
        |j: int|
            Entry {
                name: a.data_of_totals@[j].name@,
                rel: seq_max(a.data_of_totals@[j].row_number@) - a.start_row_of_totals,
                count: a.data_of_totals@[j].row_number@.len() as int,
            },
    )
}

/// The statistics of every record of every act, in order.
pub open spec fn acts_entries(acts: Seq<Act>) -> Seq<Entry>
    decreases acts.len(),
{
    if acts.len() == 0 {
        Seq::empty()
    } else {
        acts_entries(acts.drop_last()) + act_entries(acts.last())
    }
}

/// One record folded into the statistics by label: the maximum of each figure.
pub open spec fn stat_step(m: Map<Seq<char>, (int, int)>, x: Entry) -> Map<Seq<char>, (int, int)> {
    if m.contains_key(x.name) {
        let old = m[x.name];
        m.insert(
            x.name,
            (if x.rel > old.0 { x.rel } else { old.0 }, if x.count > old.1 { x.count } else { old.1 }),
        )
    } else {
        m.insert(x.name, (x.rel, x.count))
    }
}

/// The statistics by label of a list of records.
pub open spec fn fold_stats(e: Seq<Entry>) -> Map<Seq<char>, (int, int)>
    decreases e.len(),
{
    if e.len() == 0 {
        Map::empty()
    } else {
        stat_step(fold_stats(e.drop_last()), e.last())
    }
}

/// The statistics by label of a batch of acts.
pub open spec fn batch_stats(acts: Seq<Act>) -> Map<Seq<char>, (int, int)> {
    fold_stats(acts_entries(acts))
}

/// A list holds exactly the statistics `m`, one entry per label.
pub open spec fn list_ok(l: Seq<Entry>, m: Map<Seq<char>, (int, int)>) -> bool {
    &&& forall|i: int| 0 <= i < l.len() ==> m.contains_key(#[trigger] l[i].name) && m[l[i].name] == (l[i].rel, l[i].count)
    &&& forall|k: Seq<char>| #[trigger] m.contains_key(k) ==> exists|i: int| 0 <= i < l.len() && #[trigger] l[i].name == k
    &&& forall|i: int, j: int| 0 <= i < j < l.len() ==> l[i].name != l[j].name
}

/// The order of the generated columns: by furthest position, then by label.
pub open spec fn key_lt(a: Entry, b: Entry) -> bool {
    a.rel < b.rel || (a.rel == b.rel && text_lt(a.name, b.name))
}

/// Every entry comes strictly before every later one.
pub open spec fn strictly_sorted(l: Seq<Entry>) -> bool {
    forall|i: int, j: int| 0 <= i < j < l.len() ==> key_lt(#[trigger] l[i], #[trigger] l[j])
}

/// The label statistics of a batch, in column order.
pub open spec fn is_row_info(acts: Seq<Act>, l: Seq<Entry>) -> bool {
    list_ok(l, batch_stats(acts)) && strictly_sorted(l)
}

/// The statistics that a gathered entry stands for.
pub open spec fn stat_view(t: (&str, usize, usize)) -> Entry {
    Entry { name: t.0@, rel: t.1 as int, count: t.2 as int }
}

/// The statistics that a list of gathered entries stands for.
pub open spec fn stats_view(l: Seq<(&str, usize, usize)>) -> Seq<Entry> {
    Seq::new(l.len(), |i: int| stat_view(l[i]))
}

proof fn lemma_key_lt_transitive(a: Entry, b: Entry, c: Entry)
    requires
        key_lt(a, b),
        key_lt(b, c),
    ensures
        key_lt(a, c),
{
    if a.rel == b.rel && b.rel == c.rel {
        lemma_text_lt_transitive(a.name, b.name, c.name);
    }
}

proof fn lemma_key_lt_irreflexive(a: Entry, b: Entry)
    requires
        a.name == b.name,
        a.rel == b.rel,
    ensures
        !key_lt(a, b),
{
    lemma_text_lt_irreflexive(a.name);
}

proof fn lemma_key_lt_total(a: Entry, b: Entry)
    requires
        a.name != b.name,
    ensures
        key_lt(a, b) || key_lt(b, a),
{
    lemma_text_lt_total(a.name, b.name);
}

proof fn lemma_seq_max(s: Seq<usize>, low: int)
    requires
        s.len() >= 1,
        forall|j: int| 0 <= j < s.len() ==> s[j] >= low,
    ensures
        seq_max(s) >= low,
        seq_max(s) <= usize::MAX,
    decreases s.len(),
{
    if s.len() > 1 {
        lemma_seq_max(s.drop_last(), low);
    } else {
        assert(s.drop_last().len() == 0);
        assert(seq_max(s.drop_last()) == 0);
        assert(s.last() == s[0]);
    }
}

/// The largest row number of a non-empty list.
fn max_of(v: &Vec<usize>) -> (r: usize)
    requires
        v@.len() >= 1,
    ensures
        r == seq_max(v@),
{
    let mut best: usize = 0;
    let mut i: usize = 0;
    while i < v.len()
        invariant
            i <= v@.len(),
            best == seq_max(v@.take(i as int)),
        decreases v@.len() - i,
    {
        assert(v@.take(i + 1).drop_last() =~= v@.take(i as int));
        if v[i] > best {
            best = v[i];
        }
        i += 1;
    }
    assert(v@.take(i as int) =~= v@);
    best
}

/// Folds one record's statistics into the list.
fn update_stats<'b>(
    list: &mut Vec<(&'b str, usize, usize)>,
    name: &'b str,
    rel: usize,
    count: usize,
    Ghost(m): Ghost<Map<Seq<char>, (int, int)>>,
)
    requires
        list_ok(stats_view(old(list)@), m),
    ensures
        list_ok(stats_view(final(list)@), stat_step(m, Entry { name: name@, rel: rel as int, count: count as int })),
{
    let ghost x = Entry { name: name@, rel: rel as int, count: count as int };
    let ghost m2 = stat_step(m, x);
    let mut k: usize = 0;
    while k < list.len()
        invariant
            k <= list@.len(),
            list_ok(stats_view(list@), m),
            list@ == old(list)@,
            x == (Entry { name: name@, rel: rel as int, count: count as int }),
            m2 == stat_step(m, x),
            forall|q: int| 0 <= q < k ==> list@[q].0@ != name@,
        decreases list@.len() - k,
    {
        if str_eq(list[k].0, name) {
            let e = list[k];
            let nr = if rel > e.1 { rel } else { e.1 };
            let nc = if count > e.2 { count } else { e.2 };
            let ghost before = stats_view(list@);
            list.set(k, (e.0, nr, nc));
            proof {
                let after = stats_view(list@);
                assert(before[k as int].name == name@);
                assert(m.contains_key(name@) && m[name@] == (before[k as int].rel, before[k as int].count));
                assert(after[k as int] == Entry { name: name@, rel: nr as int, count: nc as int });
                assert forall|i: int| 0 <= i < after.len() implies m2.contains_key(#[trigger] after[i].name)
                    && m2[after[i].name] == (after[i].rel, after[i].count) by {
                    if i < k as int {
                        assert(after[i] == before[i]);
                        assert(before[i].name != before[k as int].name);
                    } else if i > k as int {
                        assert(after[i] == before[i]);
                        assert(before[k as int].name != before[i].name);
                    }
                };
                assert forall|key: Seq<char>| #[trigger] m2.contains_key(key) implies exists|i: int|
                    0 <= i < after.len() && #[trigger] after[i].name == key by {
                    if key == name@ {
                        assert(after[k as int].name == key);
                    } else {
                        assert(m.contains_key(key));
                        let i = choose|i: int| 0 <= i < before.len() && #[trigger] before[i].name == key;
                        assert(after[i].name == key);
                    }
                };
                assert forall|i: int, j: int| 0 <= i < j < after.len() implies after[i].name != after[j].name by {
                    assert(after[i].name == before[i].name);
                    assert(after[j].name == before[j].name);
                };
            }
            return;
        }
        k += 1;
    }
    let ghost before = stats_view(list@);
    list.push((name, rel, count));
    proof {
        let after = stats_view(list@);
        assert(!m.contains_key(name@)) by {
            if m.contains_key(name@) {
                let i = choose|i: int| 0 <= i < before.len() && #[trigger] before[i].name == name@;
                assert(list@[i].0@ == name@);
            }
        };
        assert forall|i: int| 0 <= i < after.len() implies m2.contains_key(#[trigger] after[i].name)
            && m2[after[i].name] == (after[i].rel, after[i].count) by {
            if i < before.len() {
                assert(after[i] == before[i]);
                assert(before[i].name != name@);
            }
        };
        assert forall|key: Seq<char>| #[trigger] m2.contains_key(key) implies exists|i: int|
            0 <= i < after.len() && #[trigger] after[i].name == key by {
            if key == name@ {
                assert(after[before.len() as int].name == key);
            } else {
                assert(m.contains_key(key));
                let i = choose|i: int| 0 <= i < before.len() && #[trigger] before[i].name == key;
                assert(after[i].name == key);
            }
        };
        assert forall|i: int, j: int| 0 <= i < j < after.len() implies after[i].name != after[j].name by {
            assert(after[i].name == before[i].name || i >= before.len());
            if j == before.len() {
                assert(list@[i].0@ != name@);
            } else {
                assert(after[j].name == before[j].name);
            }
        };
    }
}

proof fn lemma_acts_entries_step(acts: Seq<Act>, i: int)
    requires
        0 <= i < acts.len(),
    ensures
        acts_entries(acts.take(i + 1)) == acts_entries(acts.take(i)) + act_entries(acts[i]),
{
    assert(acts.take(i + 1).drop_last() =~= acts.take(i));
}

/// Gathers the statistics of every label of a batch, one entry per label.
fn gather_stats<'b>(acts: &'b [Act]) -> (r: Vec<(&'b str, usize, usize)>)
    requires
        forall|i: int| 0 <= i < acts@.len() ==> #[trigger] acts@[i].wf(),
    ensures
        list_ok(stats_view(r@), batch_stats(acts@)),
{
    let mut list: Vec<(&'b str, usize, usize)> = Vec::new();
    let mut i: usize = 0;
    assert(acts@.take(0) =~= Seq::<Act>::empty());
    assert(stats_view(list@) =~= Seq::<Entry>::empty());
    while i < acts.len()
        invariant
            i <= acts@.len(),
            forall|q: int| 0 <= q < acts@.len() ==> #[trigger] acts@[q].wf(),
            list_ok(stats_view(list@), fold_stats(acts_entries(acts@.take(i as int)))),
        decreases acts@.len() - i,
    {
        let act = &acts[i];
        let ghost prefix = acts_entries(acts@.take(i as int));
        let ghost ae = act_entries(*act);
        assert(act.wf());
        let mut j: usize = 0;
        assert(prefix + ae.take(0) =~= prefix);
        while j < act.data_of_totals.len()
            invariant
                j <= act.data_of_totals@.len(),
                act.wf(),
                ae == act_entries(*act),
                list_ok(stats_view(list@), fold_stats(prefix + ae.take(j as int))),
            decreases act.data_of_totals@.len() - j,
        {
            let row = &act.data_of_totals[j];
            proof {
                assert(rows_view(act.data_of_totals@)[j as int] == row@);
                lemma_seq_max(row.row_number@, act.start_row_of_totals as int);
            }
            let mx = max_of(&row.row_number);
            let rel = mx - act.start_row_of_totals;
            let count = row.row_number.len();
            let ghost before = prefix + ae.take(j as int);
            update_stats(&mut list, row.name.as_str(), rel, count, Ghost(fold_stats(before)));
            proof {
                let after = prefix + ae.take(j + 1);
                assert(after.drop_last() =~= before);
                assert(after.last() == ae[j as int]);
            }
            j += 1;
        }
        proof {
            assert(ae.take(j as int) =~= ae);
            lemma_acts_entries_step(acts@, i as int);
        }
        i += 1;
    }
    assert(acts@.take(i as int) =~= acts@);
    list
}

/// Whether entry `a` comes strictly before entry `b` in column order.
fn entry_less(a: &(&str, usize, usize), b: &(&str, usize, usize)) -> (r: bool)
    ensures
        r == key_lt(stat_view(*a), stat_view(*b)),
{
    a.1 < b.1 || (a.1 == b.1 && text_less(a.0, b.0))
}

/// The entries in column order.
fn sort_stats<'b>(l: Vec<(&'b str, usize, usize)>) -> (r: Vec<(&'b str, usize, usize)>)
    requires
        forall|i: int, j: int| 0 <= i < j < l@.len() ==> l@[i].0@ != l@[j].0@,
    ensures
        strictly_sorted(stats_view(r@)),
        r@.len() == l@.len(),
        forall|x: (&'b str, usize, usize)| r@.contains(x) <==> l@.contains(x),
{
    let mut out: Vec<(&'b str, usize, usize)> = Vec::new();
    let mut i: usize = 0;
    while i < l.len()
        invariant
            i <= l@.len(),
            forall|a: int, b: int| 0 <= a < b < l@.len() ==> l@[a].0@ != l@[b].0@,
            out@.len() == i,
            strictly_sorted(stats_view(out@)),
            forall|x: (&'b str, usize, usize)| out@.contains(x) <==> l@.take(i as int).contains(x),
        decreases l@.len() - i,
    {
        let x = l[i];
        let ghost sv = stats_view(out@);
        let mut p: usize = 0;
        while p < out.len() && !entry_less(&x, &out[p])
            invariant
                p <= out@.len(),
                sv == stats_view(out@),
                forall|q: int| 0 <= q < p ==> !key_lt(stat_view(x), #[trigger] sv[q]),
            decreases out@.len() - p,
        {
            p += 1;
        }
        proof {
            assert forall|q: int| 0 <= q < out@.len() implies (#[trigger] out@[q]).0@ != x.0@ by {
                assert(out@.contains(out@[q]));
                assert(l@.take(i as int).contains(out@[q]));
                let a = choose|a: int| 0 <= a < i && #[trigger] l@.take(i as int)[a] == out@[q];
                assert(l@[a] == out@[q]);
            };
        }
        let ghost old_out = out@;
        out.insert(p, x);
        proof {
            let nv = stats_view(out@);
            let xv = stat_view(x);
            assert forall|a: int, b: int| 0 <= a < b < nv.len() implies key_lt(#[trigger] nv[a], #[trigger] nv[b]) by {
                if a < p && b < p {
                    assert(nv[a] == sv[a] && nv[b] == sv[b]);
                } else if a < p && b == p {
                    assert(nv[a] == sv[a]);
                    assert(sv[a].name != xv.name);
                    lemma_key_lt_total(sv[a], xv);
                } else if a < p {
                    assert(nv[a] == sv[a] && nv[b] == sv[b - 1]);
                } else if a == p {
                    assert(nv[b] == sv[b - 1]);
                    assert(key_lt(xv, sv[p as int]));
                    if b - 1 > p {
                        lemma_key_lt_transitive(xv, sv[p as int], sv[b - 1]);
                    }
                } else {
                    assert(nv[a] == sv[a - 1] && nv[b] == sv[b - 1]);
                }
            };
            assert forall|y: (&'b str, usize, usize)| out@.contains(y) <==> l@.take(i + 1).contains(y) by {
                assert(l@.take(i + 1) =~= l@.take(i as int).push(x));
                if out@.contains(y) {
                    let q = choose|q: int| 0 <= q < out@.len() && out@[q] == y;
                    if q < p {
                        assert(old_out[q] == y);
                        assert(old_out.contains(y));
                    } else if q > p {
                        assert(old_out[q - 1] == y);
                        assert(old_out.contains(y));
                    }
                    assert(l@.take(i + 1)[i as int] == x);
                }
                if l@.take(i + 1).contains(y) {
                    if y == x {
                        assert(out@[p as int] == x);
                    } else {
                        assert(l@.take(i as int).contains(y));
                        assert(old_out.contains(y));
                        let q = choose|q: int| 0 <= q < old_out.len() && old_out[q] == y;
                        if q < p {
                            assert(out@[q] == y);
                        } else {
                            assert(out@[q + 1] == y);
                        }
                    }
                }
            };
        }
        i += 1;
    }
    assert(l@.take(i as int) =~= l@);
    out
}

/// The pinned columns: the header region in report order, then the overrides of
/// totals labels.
pub open spec fn main_config() -> Seq<ExtractionConfigView> {
    seq![
        ExtractionConfigView { rename: None, moving: Moving::No, sequence_number: 0, expected_columns: 1, source: SourceView::Calculate("Папка (ссылка)"@) },
        ExtractionConfigView { rename: None, moving: Moving::No, sequence_number: 0, expected_columns: 1, source: SourceView::Calculate("Файл (ссылка)"@) },
        ExtractionConfigView { rename: None, moving: Moving::No, sequence_number: 0, expected_columns: 1, source: SourceView::Calculate("Акт №"@) },
        ExtractionConfigView { rename: None, moving: Moving::No, sequence_number: 0, expected_columns: 1, source: SourceView::InTableHeader("Акт дата"@) },
        ExtractionConfigView { rename: None, moving: Moving::No, sequence_number: 0, expected_columns: 1, source: SourceView::InTableHeader("Исполнитель"@) },
        ExtractionConfigView { rename: None, moving: Moving::No, sequence_number: 0, expected_columns: 1, source: SourceView::Calculate("Глава"@) },
        ExtractionConfigView { rename: None, moving: Moving::No, sequence_number: 0, expected_columns: 1, source: SourceView::InTableHeader("Объект"@) },
        ExtractionConfigView { rename: None, moving: Moving::No, sequence_number: 0, expected_columns: 1, source: SourceView::InTableHeader("Договор №"@) },
        ExtractionConfigView { rename: None, moving: Moving::No, sequence_number: 0, expected_columns: 1, source: SourceView::InTableHeader("Договор дата"@) },
        ExtractionConfigView { rename: None, moving: Moving::No, sequence_number: 0, expected_columns: 1, source: SourceView::Calculate("Смета №"@) },
        ExtractionConfigView { rename: None, moving: Moving::No, sequence_number: 0, expected_columns: 1, source: SourceView::InTableHeader("Смета наименование"@) },
        ExtractionConfigView { rename: Some("По смете в ц.2000г., руб."@), moving: Moving::No, sequence_number: 0, expected_columns: 1, source: SourceView::Calculate("По смете в ц.2000г."@) },
        ExtractionConfigView { rename: Some("Выполнение работ в ц.2000г., руб."@), moving: Moving::No, sequence_number: 0, expected_columns: 1, source: SourceView::Calculate("Выполнение работ в ц.2000г."@) },
        ExtractionConfigView { rename: None, moving: Moving::No, sequence_number: 0, expected_columns: 1, source: SourceView::InTableHeader("Отчетный период начало"@) },
        ExtractionConfigView { rename: None, moving: Moving::No, sequence_number: 0, expected_columns: 1, source: SourceView::InTableHeader("Отчетный период окончание"@) },
        ExtractionConfigView { rename: None, moving: Moving::No, sequence_number: 0, expected_columns: 1, source: SourceView::InTableHeader("Метод расчета"@) },
        ExtractionConfigView { rename: None, moving: Moving::No, sequence_number: 0, expected_columns: 1, source: SourceView::InTableHeader("Затраты труда, чел.-час"@) },
        ExtractionConfigView { rename: None, moving: Moving::Del, sequence_number: 0, expected_columns: 1, source: SourceView::AtBasePrices("Всего с НР и СП (тек"@, Matches::Contains) },
        ExtractionConfigView { rename: None, moving: Moving::Del, sequence_number: 0, expected_columns: 1, source: SourceView::AtCurrPrices("Всего с НР и СП (баз"@, Matches::Contains) },
        ExtractionConfigView { rename: None, moving: Moving::Del, sequence_number: 0, expected_columns: 1, source: SourceView::AtBasePrices("Итого с К = 1"@, Matches::Exact) },
        ExtractionConfigView { rename: None, moving: Moving::Del, sequence_number: 0, expected_columns: 1, source: SourceView::AtCurrPrices("Итого с К = 1"@, Matches::Exact) },
    ]
}

/// The pinned columns, as `main_config` lists them.
pub fn main_configs() -> (r: Vec<ExtractionConfig>)
    ensures
        configs_view(r@) == main_config(),
{
    let v = vec![
        ExtractionConfig { rename: None, moving: Moving::No, sequence_number: 0, expected_columns: 1, source: Source::Calculate("Папка (ссылка)") },
        ExtractionConfig { rename: None, moving: Moving::No, sequence_number: 0, expected_columns: 1, source: Source::Calculate("Файл (ссылка)") },
        ExtractionConfig { rename: None, moving: Moving::No, sequence_number: 0, expected_columns: 1, source: Source::Calculate("Акт №") },
        ExtractionConfig { rename: None, moving: Moving::No, sequence_number: 0, expected_columns: 1, source: Source::InTableHeader("Акт дата") },
        ExtractionConfig { rename: None, moving: Moving::No, sequence_number: 0, expected_columns: 1, source: Source::InTableHeader("Исполнитель") },
        ExtractionConfig { rename: None, moving: Moving::No, sequence_number: 0, expected_columns: 1, source: Source::Calculate("Глава") },
        ExtractionConfig { rename: None, moving: Moving::No, sequence_number: 0, expected_columns: 1, source: Source::InTableHeader("Объект") },
        ExtractionConfig { rename: None, moving: Moving::No, sequence_number: 0, expected_columns: 1, source: Source::InTableHeader("Договор №") },
        ExtractionConfig { rename: None, moving: Moving::No, sequence_number: 0, expected_columns: 1, source: Source::InTableHeader("Договор дата") },
        ExtractionConfig { rename: None, moving: Moving::No, sequence_number: 0, expected_columns: 1, source: Source::Calculate("Смета №") },
        ExtractionConfig { rename: None, moving: Moving::No, sequence_number: 0, expected_columns: 1, source: Source::InTableHeader("Смета наименование") },
        ExtractionConfig { rename: Some("По смете в ц.2000г., руб."), moving: Moving::No, sequence_number: 0, expected_columns: 1, source: Source::Calculate("По смете в ц.2000г.") },
        ExtractionConfig { rename: Some("Выполнение работ в ц.2000г., руб."), moving: Moving::No, sequence_number: 0, expected_columns: 1, source: Source::Calculate("Выполнение работ в ц.2000г.") },
        ExtractionConfig { rename: None, moving: Moving::No, sequence_number: 0, expected_columns: 1, source: Source::InTableHeader("Отчетный период начало") },
        ExtractionConfig { rename: None, moving: Moving::No, sequence_number: 0, expected_columns: 1, source: Source::InTableHeader("Отчетный период окончание") },
        ExtractionConfig { rename: None, moving: Moving::No, sequence_number: 0, expected_columns: 1, source: Source::InTableHeader("Метод расчета") },
        ExtractionConfig { rename: None, moving: Moving::No, sequence_number: 0, expected_columns: 1, source: Source::InTableHeader("Затраты труда, чел.-час") },
        ExtractionConfig { rename: None, moving: Moving::Del, sequence_number: 0, expected_columns: 1, source: Source::AtBasePrices("Всего с НР и СП (тек".to_owned(), Matches::Contains) },
        ExtractionConfig { rename: None, moving: Moving::Del, sequence_number: 0, expected_columns: 1, source: Source::AtCurrPrices("Всего с НР и СП (баз".to_owned(), Matches::Contains) },
        ExtractionConfig { rename: None, moving: Moving::Del, sequence_number: 0, expected_columns: 1, source: Source::AtBasePrices("Итого с К = 1".to_owned(), Matches::Exact) },
        ExtractionConfig { rename: None, moving: Moving::Del, sequence_number: 0, expected_columns: 1, source: Source::AtCurrPrices("Итого с К = 1".to_owned(), Matches::Exact) },
    ];
    assert(configs_view(v@) =~= main_config());
    v
}

proof fn lemma_sorted_names_distinct(l: Seq<Entry>, i: int, j: int)
    requires
        strictly_sorted(l),
        0 <= i < j < l.len(),
        l[i].rel == l[j].rel,
    ensures
        l[i].name != l[j].name,
{
    if l[i].name == l[j].name {
        assert(key_lt(l[i], l[j]));
        lemma_text_lt_irreflexive(l[i].name);
    }
}

/// The statistics of every label of the batch, in column order.
fn get_totals_row_info<'b>(acts_vec: &'b [Act]) -> (r: Vec<(&'b str, usize, usize)>)
    requires
        forall|i: int| 0 <= i < acts_vec@.len() ==> #[trigger] acts_vec@[i].wf(),
    ensures
        is_row_info(acts_vec@, stats_view(r@)),
{
    let l = gather_stats(acts_vec);
    let ghost lv = stats_view(l@);
    let ghost m = batch_stats(acts_vec@);
    proof {
        assert forall|i: int, j: int| 0 <= i < j < l@.len() implies l@[i].0@ != l@[j].0@ by {
            assert(lv[i].name != lv[j].name);
        };
    }
    let r = sort_stats(l);
    proof {
        let rv = stats_view(r@);
        assert forall|i: int| 0 <= i < rv.len() implies m.contains_key(#[trigger] rv[i].name) && m[rv[i].name] == (
            rv[i].rel,
            rv[i].count,
        ) by {
            assert(r@.contains(r@[i]));
            let a = choose|a: int| 0 <= a < l@.len() && l@[a] == r@[i];
            assert(lv[a] == rv[i]);
        };
        assert forall|k: Seq<char>| #[trigger] m.contains_key(k) implies exists|i: int| 0 <= i < rv.len() && #[trigger] rv[i].name == k by {
            let a = choose|a: int| 0 <= a < lv.len() && #[trigger] lv[a].name == k;
            assert(l@.contains(l@[a]));
            let i = choose|i: int| 0 <= i < r@.len() && r@[i] == l@[a];
            assert(rv[i].name == k);
        };
        assert forall|i: int, j: int| 0 <= i < j < rv.len() implies rv[i].name != rv[j].name by {
            assert(r@.contains(r@[i]));
            assert(r@.contains(r@[j]));
            let a = choose|a: int| 0 <= a < l@.len() && l@[a] == r@[i];
            let b = choose|b: int| 0 <= b < l@.len() && l@[b] == r@[j];
            assert(lv[a] == rv[i] && lv[b] == rv[j]);
            if a == b {
                lemma_sorted_names_distinct(rv, i, j);
            } else if a < b {
                assert(lv[a].name != lv[b].name);
            } else {
                assert(lv[b].name != lv[a].name);
            }
        };
    }
    r
}

/// Whether column `c` of the pinned list overrides labels of the given price basis.
pub open spec fn of_basis(c: ExtractionConfigView, base: bool) -> bool {
    if base {
        c.source is AtBasePrices
    } else {
        c.source is AtCurrPrices
    }
}

/// The label text and comparison of a totals column.
pub open spec fn override_text(c: ExtractionConfigView) -> (Seq<char>, Matches) {
    match c.source {
        SourceView::AtBasePrices(t, m) => (t, m),
        SourceView::AtCurrPrices(t, m) => (t, m),
        _ => (Seq::empty(), Matches::Exact),
    }
}

/// Whether override `c` matches the label `name` exactly.
pub open spec fn exact_hit(c: ExtractionConfigView, base: bool, name: Seq<char>) -> bool {
    of_basis(c, base) && override_text(c).1 == Matches::Exact && override_text(c).0 == name
}

/// Whether override `c` matches the label `name` by containment.
pub open spec fn contains_hit(c: ExtractionConfigView, base: bool, name: Seq<char>) -> bool {
    of_basis(c, base) && override_text(c).1 == Matches::Contains && seq_contains(name, override_text(c).0)
}

/// The first override at `k` or later that matches `name` exactly.
pub open spec fn first_exact(v: Seq<ExtractionConfigView>, base: bool, name: Seq<char>, k: nat) -> Option<nat>
    decreases v.len() - k,
{
    if k >= v.len() {
        None
    } else if exact_hit(v[k as int], base, name) {
        Some(k)
    } else {
        first_exact(v, base, name, k + 1)
    }
}

/// The first override at `k` or later whose text `name` contains.
pub open spec fn first_contains(v: Seq<ExtractionConfigView>, base: bool, name: Seq<char>, k: nat) -> Option<nat>
    decreases v.len() - k,
{
    if k >= v.len() {
        None
    } else if contains_hit(v[k as int], base, name) {
        Some(k)
    } else {
        first_contains(v, base, name, k + 1)
    }
}

/// The override that decides a label: the first exact match in declaration order,
/// else the first containment match.
pub open spec fn matching_override(v: Seq<ExtractionConfigView>, base: bool, name: Seq<char>) -> Option<nat> {
    match first_exact(v, base, name, 0) {
        Some(i) => Some(i),
        None => first_contains(v, base, name, 0),
    }
}

/// The generated column of label statistics `e`, under its rename if an override
/// keeps it in the totals region; none where an override moves it to the header
/// region or suppresses it.
pub open spec fn generated_for(v: Seq<ExtractionConfigView>, base: bool, e: Entry) -> Option<ExtractionConfigView> {
    let source = if base {
        SourceView::AtBasePrices(e.name, Matches::Exact)
    } else {
        SourceView::AtCurrPrices(e.name, Matches::Exact)
    };
    match matching_override(v, base, e.name) {
        None => Some(
            ExtractionConfigView {
                rename: None,
                moving: Moving::No,
                sequence_number: e.rel as usize,
                expected_columns: e.count as u16,
                source,
            },
        ),
        Some(i) => if v[i as int].moving == Moving::No {
            Some(
                ExtractionConfigView {
                    rename: v[i as int].rename,
                    moving: Moving::No,
                    sequence_number: e.rel as usize,
                    expected_columns: e.count as u16,
                    source,
                },
            )
        } else {
            None
        },
    }
}

/// The generated columns of one price basis, in the order of the statistics.
pub open spec fn generated(v: Seq<ExtractionConfigView>, base: bool, infos: Seq<Entry>) -> Seq<ExtractionConfigView>
    decreases infos.len(),
{
    if infos.len() == 0 {
        Seq::empty()
    } else {
        let rest = generated(v, base, infos.drop_last());
        match generated_for(v, base, infos.last()) {
            Some(c) => rest.push(c),
            None => rest,
        }
    }
}

/// A label's statistics as the layout keeps them.
#[derive(Debug)]
pub struct TotalsRowInfo<'b> {
    pub row_name: &'b str,
    pub row_instance_count: u16,
    pub row_max_relative_number: usize,
}

impl<'b> View for TotalsRowInfo<'b> {
    type V = Entry;

    open spec fn view(&self) -> Entry {
        Entry { name: self.row_name@, rel: self.row_max_relative_number as int, count: self.row_instance_count as int }
    }
}

/// The statistics that a list of label statistics stands for.
pub open spec fn infos_view<'b>(v: Seq<TotalsRowInfo<'b>>) -> Seq<Entry> {
    Seq::new(v.len(), |i: int| v[i]@)
}

/// The override of `part_1` that decides the label `name`.
fn find_override(part_1: &[ExtractionConfig], base: bool, name: &str) -> (r: Option<usize>)
    ensures
        match matching_override(configs_view(part_1@), base, name@) {
            Some(i) => r == Some(i as usize) && i < part_1@.len(),
            None => r is None,
        },
{
    let ghost v = configs_view(part_1@);
    let mut i: usize = 0;
    while i < part_1.len()
        invariant
            v == configs_view(part_1@),
            i <= part_1@.len(),
            first_exact(v, base, name@, 0) == first_exact(v, base, name@, i as nat),
        decreases part_1@.len() - i,
    {
        let hit = match &part_1[i].source {
            Source::AtBasePrices(t, Matches::Exact) => base && str_eq(t.as_str(), name),
            Source::AtCurrPrices(t, Matches::Exact) => !base && str_eq(t.as_str(), name),
            _ => false,
        };
        assert(v[i as int] == part_1@[i as int]@);
        if hit {
            return Some(i);
        }
        i += 1;
    }
    let name_chars = chars_of(name);
    let mut j: usize = 0;
    while j < part_1.len()
        invariant
            v == configs_view(part_1@),
            j <= part_1@.len(),
            name_chars@ == name@,
            first_exact(v, base, name@, 0) is None,
            first_contains(v, base, name@, 0) == first_contains(v, base, name@, j as nat),
        decreases part_1@.len() - j,
    {
        let hit = match &part_1[j].source {
            Source::AtBasePrices(t, Matches::Contains) => base && vec_contains(&name_chars, &chars_of(t.as_str())),
            Source::AtCurrPrices(t, Matches::Contains) => !base && vec_contains(&name_chars, &chars_of(t.as_str())),
            _ => false,
        };
        assert(v[j as int] == part_1@[j as int]@);
        if hit {
            return Some(j);
        }
        j += 1;
    }
    None
}

/// The generated column of one label for one price basis, if it gets one.
fn extraction_config(part_1: &[ExtractionConfig], info: &TotalsRowInfo, base: bool) -> (r: Option<ExtractionConfig>)
    ensures
        match generated_for(configs_view(part_1@), base, info@) {
            Some(c) => r matches Some(x) && x@ == c,
            None => r is None,
        },
{
    let rename = match find_override(part_1, base, info.row_name) {
        None => None,
        Some(i) => match part_1[i].moving {
            Moving::No => part_1[i].rename,
            _ => return None,
        },
    };
    let source = if base {
        Source::AtBasePrices(info.row_name.to_owned(), Matches::Exact)
    } else {
        Source::AtCurrPrices(info.row_name.to_owned(), Matches::Exact)
    };
    Some(ExtractionConfig {
        rename,
        moving: Moving::No,
        sequence_number: info.row_max_relative_number,
        expected_columns: info.row_instance_count,
        source,
    })
}

/// The generated columns of both price bases: every label that no override moves
/// or suppresses, in the order of `totals_row_info_vec`.
fn get_price_part_configs(
    part_1: &[ExtractionConfig],
    totals_row_info_vec: Vec<TotalsRowInfo>,
) -> (r: (Vec<ExtractionConfig>, Vec<ExtractionConfig>))
    ensures
        configs_view(r.0@) == generated(configs_view(part_1@), true, infos_view(totals_row_info_vec@)),
        configs_view(r.1@) == generated(configs_view(part_1@), false, infos_view(totals_row_info_vec@)),
{
    let ghost v = configs_view(part_1@);
    let ghost iv = infos_view(totals_row_info_vec@);
    let mut base_set: Vec<ExtractionConfig> = Vec::new();
    let mut curr_set: Vec<ExtractionConfig> = Vec::new();
    let mut i: usize = 0;
    assert(iv.take(0) =~= Seq::<Entry>::empty());
    assert(configs_view(base_set@) =~= Seq::<ExtractionConfigView>::empty());
    assert(configs_view(curr_set@) =~= Seq::<ExtractionConfigView>::empty());
    while i < totals_row_info_vec.len()
        invariant
            v == configs_view(part_1@),
            iv == infos_view(totals_row_info_vec@),
            i <= iv.len(),
            configs_view(base_set@) == generated(v, true, iv.take(i as int)),
            configs_view(curr_set@) == generated(v, false, iv.take(i as int)),
        decreases iv.len() - i,
    {
        let info = &totals_row_info_vec[i];
        assert(iv.take(i + 1).drop_last() =~= iv.take(i as int));
        assert(iv.take(i + 1).last() == info@);
        let ghost b0 = base_set@;
        if let Some(x) = extraction_config(part_1, info, true) {
            base_set.push(x);
            assert(configs_view(base_set@) =~= configs_view(b0).push(x@));
        }
        let ghost c0 = curr_set@;
        if let Some(y) = extraction_config(part_1, info, false) {
            curr_set.push(y);
            assert(configs_view(curr_set@) =~= configs_view(c0).push(y@));
        }
        i += 1;
    }
    assert(iv.take(i as int) =~= iv);
    (base_set, curr_set)
}

/// The total of the widths that a list of statistics asks for.
pub open spec fn count_sum(l: Seq<Entry>) -> int
    decreases l.len(),
{
    if l.len() == 0 {
        0
    } else {
        count_sum(l.drop_last()) + l.last().count
    }
}

/// The three column sets of a report: the pinned header region, then the generated
/// regions at base and at current prices.
#[derive(Debug)]
pub struct WritingConfigs {
    pub main_set: ExcelDataSet,
    pub base_set: ExcelDataSet,
    pub curr_set: ExcelDataSet,
}

/// The layout that `w` is for the batch `acts`, given its label statistics `l`.
pub open spec fn layout_with(acts: Seq<Act>, l: Seq<Entry>, w: WritingConfigs) -> bool {
    &&& is_row_info(acts, l)
    &&& w.main_set@ == main_config()
    &&& w.base_set@ == generated(main_config(), true, l)
    &&& w.curr_set@ == generated(main_config(), false, l)
    &&& w.main_set.wf() && w.base_set.wf() && w.curr_set.wf()
}

/// The layout of a batch.
pub open spec fn layout_of(acts: Seq<Act>, w: WritingConfigs) -> bool {
    exists|l: Seq<Entry>| #[trigger] layout_with(acts, l, w)
}

proof fn lemma_count_sum_bounds(l: Seq<Entry>)
    requires
        forall|i: int| 0 <= i < l.len() ==> (#[trigger] l[i]).count >= 0,
    ensures
        count_sum(l) >= 0,
        forall|i: int| 0 <= i < l.len() ==> (#[trigger] l[i]).count <= count_sum(l),
    decreases l.len(),
{
    if l.len() > 0 {
        lemma_count_sum_bounds(l.drop_last());
        assert forall|i: int| 0 <= i < l.len() implies (#[trigger] l[i]).count <= count_sum(l) by {
            if i < l.len() - 1 {
                assert(l.drop_last()[i] == l[i]);
            }
        };
    }
}

proof fn lemma_generated_width(v: Seq<ExtractionConfigView>, base: bool, l: Seq<Entry>)
    requires
        forall|i: int| 0 <= i < l.len() ==> (#[trigger] l[i]).count >= 0,
        count_sum(l) <= u16::MAX,
    ensures
        0 <= col_sum(generated(v, base, l)) <= count_sum(l),
    decreases l.len(),
{
    if l.len() > 0 {
        lemma_count_sum_bounds(l);
        lemma_count_sum_bounds(l.drop_last());
        assert(l.last() == l[l.len() - 1]);
        lemma_generated_width(v, base, l.drop_last());
        let rest = generated(v, base, l.drop_last());
        match generated_for(v, base, l.last()) {
            Some(c) => {
                assert(rest.push(c).drop_last() =~= rest);
            },
            None => {},
        }
    }
}

/// Two strictly sorted lists that hold the same statistics are the same list.
proof fn lemma_sorted_lists_equal(l1: Seq<Entry>, l2: Seq<Entry>, m: Map<Seq<char>, (int, int)>)
    requires
        list_ok(l1, m),
        list_ok(l2, m),
        strictly_sorted(l1),
        strictly_sorted(l2),
    ensures
        l1 == l2,
    decreases l1.len(),
{
    if l1.len() == 0 {
        if l2.len() > 0 {
            assert(m.contains_key(l2[0].name));
        }
        assert(l1 =~= l2);
    } else {
        assert(m.contains_key(l1[0].name));
        if l2.len() == 0 {
            assert(false);
        }
        let j = choose|j: int| 0 <= j < l2.len() && #[trigger] l2[j].name == l1[0].name;
        assert(m.contains_key(l2[0].name));
        let i = choose|i: int| 0 <= i < l1.len() && #[trigger] l1[i].name == l2[0].name;
        assert(l2[j] == l1[0]);
        assert(l1[i] == l2[0]);
        if j > 0 {
            assert(key_lt(l2[0], l2[j]));
            if i == 0 {
                assert(l2[0].name == l2[j].name);
            } else {
                assert(key_lt(l1[0], l1[i]));
                lemma_key_lt_transitive(l1[0], l1[i], l1[0]);
                lemma_key_lt_irreflexive(l1[0], l1[0]);
            }
        }
        assert(l1[0] == l2[0]);
        let k = l1[0].name;
        let m2 = m.remove(k);
        let t1 = l1.drop_first();
        let t2 = l2.drop_first();
        assert forall|a: int| 0 <= a < t1.len() implies m2.contains_key(#[trigger] t1[a].name) && m2[t1[a].name] == (
            t1[a].rel,
            t1[a].count,
        ) by {
            assert(t1[a] == l1[a + 1]);
            assert(l1[0].name != l1[a + 1].name);
        };
        assert forall|a: int| 0 <= a < t2.len() implies m2.contains_key(#[trigger] t2[a].name) && m2[t2[a].name] == (
            t2[a].rel,
            t2[a].count,
        ) by {
            assert(t2[a] == l2[a + 1]);
            assert(l2[0].name != l2[a + 1].name);
        };
        assert forall|key: Seq<char>| #[trigger] m2.contains_key(key) implies exists|a: int| 0 <= a < t1.len() && #[trigger] t1[a].name == key by {
            assert(m.contains_key(key));
            let b = choose|b: int| 0 <= b < l1.len() && #[trigger] l1[b].name == key;
            assert(b != 0);
            assert(t1[b - 1].name == key);
        };
        assert forall|key: Seq<char>| #[trigger] m2.contains_key(key) implies exists|a: int| 0 <= a < t2.len() && #[trigger] t2[a].name == key by {
            assert(m.contains_key(key));
            let b = choose|b: int| 0 <= b < l2.len() && #[trigger] l2[b].name == key;
            assert(b != 0);
            assert(t2[b - 1].name == key);
        };
        assert forall|a: int, b: int| 0 <= a < b < t1.len() implies t1[a].name != t1[b].name by {
            assert(l1[a + 1].name != l1[b + 1].name);
        };
        assert forall|a: int, b: int| 0 <= a < b < t2.len() implies t2[a].name != t2[b].name by {
            assert(l2[a + 1].name != l2[b + 1].name);
        };
        assert forall|a: int, b: int| 0 <= a < b < t1.len() implies key_lt(#[trigger] t1[a], #[trigger] t1[b]) by {
            assert(key_lt(l1[a + 1], l1[b + 1]));
        };
        assert forall|a: int, b: int| 0 <= a < b < t2.len() implies key_lt(#[trigger] t2[a], #[trigger] t2[b]) by {
            assert(key_lt(l2[a + 1], l2[b + 1]));
        };
        lemma_sorted_lists_equal(t1, t2, m2);
        assert(l1 =~= l2) by {
            assert forall|a: int| 0 <= a < l1.len() implies l1[a] == l2[a] by {
                if a > 0 {
                    assert(t1[a - 1] == t2[a - 1]);
                }
            };
        };
    }
}

/// A batch has one list of label statistics in column order: the layout does not
/// depend on the order in which labels were gathered.
pub proof fn lemma_row_info_unique(acts: Seq<Act>, l1: Seq<Entry>, l2: Seq<Entry>)
    requires
        is_row_info(acts, l1),
        is_row_info(acts, l2),
    ensures
        l1 == l2,
{
    lemma_sorted_lists_equal(l1, l2, batch_stats(acts));
}

/// Reconciling the same batch twice gives identical column sets.
pub proof fn lemma_layout_deterministic(acts: Seq<Act>, w1: WritingConfigs, w2: WritingConfigs)
    requires
        layout_of(acts, w1),
        layout_of(acts, w2),
    ensures
        w1.main_set@ == w2.main_set@,
        w1.base_set@ == w2.base_set@,
        w1.curr_set@ == w2.curr_set@,
{
    let l1 = choose|l: Seq<Entry>| #[trigger] layout_with(acts, l, w1);
    let l2 = choose|l: Seq<Entry>| #[trigger] layout_with(acts, l, w2);
    lemma_row_info_unique(acts, l1, l2);
}

proof fn lemma_main_config_width()
    ensures
        col_sum(main_config()) == 17,
{
    reveal_with_fuel(col_sum, 22);
}

/// The statistics with their widths as report column counts; where the widths
/// together exceed what a report can index, the running total that first did.
fn to_infos<'b>(stats: &Vec<(&'b str, usize, usize)>) -> (r: Result<Vec<TotalsRowInfo<'b>>, usize>)
    requires
        forall|q: int| 0 <= q < stats@.len() ==> (#[trigger] stats_view(stats@)[q]).count >= 0,
    ensures
        r is Err <==> count_sum(stats_view(stats@)) > u16::MAX,
        r matches Ok(v) ==> infos_view(v@) == stats_view(stats@),
        r matches Err(total) ==> total > u16::MAX,
{
    let ghost sv = stats_view(stats@);
    let mut infos: Vec<TotalsRowInfo> = Vec::new();
    let mut acc: usize = 0;
    let mut i: usize = 0;
    assert(sv.take(0) =~= Seq::<Entry>::empty());
    assert(infos_view(infos@) =~= Seq::<Entry>::empty());
    while i < stats.len()
        invariant
            sv == stats_view(stats@),
            forall|q: int| 0 <= q < sv.len() ==> (#[trigger] sv[q]).count >= 0,
            i <= stats@.len(),
            acc == count_sum(sv.take(i as int)),
            acc <= u16::MAX,
            infos_view(infos@) == sv.take(i as int),
        decreases stats@.len() - i,
    {
        let (name, rel, count) = stats[i];
        assert(sv.take(i + 1).drop_last() =~= sv.take(i as int));
        assert(sv[i as int].count == count);
        if count > 65535 - acc {
            proof {
                lemma_count_prefix(sv, i + 1);
            }
            return Err(if count > usize::MAX - acc { usize::MAX } else { acc + count });
        }
        acc = acc + count;
        let ghost before = infos@;
        infos.push(TotalsRowInfo { row_name: name, row_instance_count: count as u16, row_max_relative_number: rel });
        assert(infos_view(infos@) =~= infos_view(before).push(sv[i as int]));
        assert(sv.take(i + 1) =~= sv.take(i as int).push(sv[i as int]));
        i += 1;
    }
    assert(sv.take(i as int) =~= sv);
    Ok(infos)
}

impl WritingConfigs {
    /// The layout of a batch: the pinned columns, and for each price basis one
    /// generated column per label that no override moves or suppresses, ordered by
    /// the label's furthest position in a totals block, then by label. Fails where
    /// the labels together ask for more columns than a report can index.
    pub fn new(acts_vec: &[Act]) -> (r: Result<WritingConfigs, Error>)
        requires
            forall|i: int| 0 <= i < acts_vec@.len() ==> #[trigger] acts_vec@[i].wf(),
        ensures
            r matches Ok(w) ==> layout_of(acts_vec@, w),
            r is Err ==> (r matches Err(Error::NumericConversion { .. }) && exists|l: Seq<Entry>|
                #[trigger] is_row_info(acts_vec@, l) && count_sum(l) > u16::MAX),
            (exists|l: Seq<Entry>| #[trigger] is_row_info(acts_vec@, l) && count_sum(l) <= u16::MAX) ==> r is Ok,
    {
        let main_cfg = main_configs();
        proof {
            lemma_main_config_width();
        }
        let stats = get_totals_row_info(acts_vec);
        let ghost sv = stats_view(stats@);
        assert forall|q: int| 0 <= q < sv.len() implies (#[trigger] sv[q]).count >= 0 by {};
        let infos = match to_infos(&stats) {
            Ok(v) => v,
            Err(total) => {
                proof {
                    assert forall|l: Seq<Entry>| #[trigger] is_row_info(acts_vec@, l) implies l == sv by {
                        lemma_row_info_unique(acts_vec@, l, sv);
                    };
                }
                return Err(Error::NumericConversion { value: total });
            },
        };
        proof {
            lemma_generated_width(main_config(), true, sv);
            lemma_generated_width(main_config(), false, sv);
        }
        let (vec_base_config, vec_curr_config) = get_price_part_configs(main_cfg.as_slice(), infos);
        let main_set = ExcelDataSet::new(main_cfg);
        let base_set = ExcelDataSet::new(vec_base_config);
        let curr_set = ExcelDataSet::new(vec_curr_config);
        let w = WritingConfigs { main_set, base_set, curr_set };
        assert(layout_with(acts_vec@, sv, w));
        Ok(w)
    }
}

proof fn lemma_count_prefix(l: Seq<Entry>, k: int)
    requires
        0 <= k <= l.len(),
        forall|i: int| 0 <= i < l.len() ==> (#[trigger] l[i]).count >= 0,
    ensures
        count_sum(l.take(k)) <= count_sum(l),
    decreases l.len(),
{
    if k < l.len() {
        assert(l.drop_last().take(k) =~= l.take(k));
        lemma_count_prefix(l.drop_last(), k);
    } else {
        assert(l.take(k) =~= l);
    }
}

/// A label that an exact override moves to the header region (or suppresses) gets
/// no generated column, whatever widths the acts ask for.
pub proof fn lemma_pinned_label_not_generated(v: Seq<ExtractionConfigView>, base: bool, l: Seq<Entry>, x: Seq<char>, i: nat)
    requires
        i < v.len(),
        exact_hit(v[i as int], base, x),
        v[i as int].moving != Moving::No,
        forall|j: int| 0 <= j < i ==> !exact_hit(#[trigger] v[j], base, x),
    ensures
        forall|k: int| 0 <= k < generated(v, base, l).len() ==> override_text(#[trigger] generated(v, base, l)[k]).0 != x,
    decreases l.len(),
{
    lemma_first_exact(v, base, x, 0, i);
    if l.len() > 0 {
        lemma_pinned_label_not_generated(v, base, l.drop_last(), x, i);
        let rest = generated(v, base, l.drop_last());
        match generated_for(v, base, l.last()) {
            Some(c) => {
                assert(l.last().name != x);
                assert forall|k: int| 0 <= k < rest.push(c).len() implies override_text(#[trigger] rest.push(c)[k]).0 != x by {
                    if k < rest.len() {
                        assert(rest.push(c)[k] == rest[k]);
                    }
                };
            },
            None => {},
        }
    }
}

proof fn lemma_first_exact(v: Seq<ExtractionConfigView>, base: bool, x: Seq<char>, k: nat, i: nat)
    requires
        k <= i < v.len(),
        exact_hit(v[i as int], base, x),
        forall|j: int| k <= j < i ==> !exact_hit(#[trigger] v[j], base, x),
    ensures
        first_exact(v, base, x, k) == Some(i),
    decreases i - k,
{
    if k < i {
        lemma_first_exact(v, base, x, k + 1, i);
    }
}

/// Letters of the 0-based column `column`.
pub fn column_written_with_letters(column: u16) -> (r: String)
    ensures
        r@ == column_letters(column as nat),
{
    get_xl_column_letter(column)
}

/// Where a label's values go within one column list: the first column of the
/// column that the exact lookup finds, and that column's width.
pub open spec fn region_hit(set: Seq<ExtractionConfigView>, kind: Seq<char>, name: Seq<char>) -> Option<(int, int)> {
    match first_hit(set, kind, name, Matches::Exact, 0) {
        Some(p) => Some((col_sum(set.take(p as int)), set[p as int].expected_columns as int)),
        None => None,
    }
}

/// Where a label's values of one price basis go in the report: found in the
/// generated region of that basis, else among the pinned columns, counted from
/// `offset` columns past the pinned region.
pub open spec fn price_place(
    main: Seq<ExtractionConfigView>,
    region: Seq<ExtractionConfigView>,
    kind: Seq<char>,
    offset: int,
    name: Seq<char>,
) -> Option<(int, int)> {
    match region_hit(region, kind, name) {
        Some((c, wd)) => Some((col_sum(main) + offset + c, wd)),
        None => match region_hit(main, kind, name) {
            Some((c, wd)) => Some((col_sum(main) + offset + c, wd)),
            None => None,
        },
    }
}

/// The cells written for the first `n` values, from column `start` on: one per
/// value that is a number.
pub open spec fn price_cells(start: int, prices: Seq<Option<u64>>, n: nat) -> Seq<(usize, u64)>
    decreases n,
{
    if n == 0 || n > prices.len() {
        Seq::empty()
    } else {
        price_cells(start, prices, (n - 1) as nat) + match prices[n - 1] {
            Some(x) => seq![((start + n - 1) as usize, x)],
            None => Seq::empty(),
        }
    }
}

/// The cells of one price basis: as many values as the column is wide, at most.
pub open spec fn basis_cells(place: Option<(int, int)>, prices: Seq<Option<u64>>) -> Seq<(usize, u64)> {
    match place {
        Some((start, wd)) => price_cells(start, prices, if wd < prices.len() { wd as nat } else { prices.len() }),
        None => Seq::empty(),
    }
}

impl WritingConfigs {
    /// Each column set records its own width.
    pub open spec fn wf(&self) -> bool {
        self.main_set.wf() && self.base_set.wf() && self.curr_set.wf()
    }

    /// The emitted width of the whole report.
    pub open spec fn total_width(&self) -> int {
        col_sum(self.main_set@) + col_sum(self.base_set@) + col_sum(self.curr_set@)
    }

    /// The cells that one totals record fills in a report row: (0-based column,
    /// number) pairs, first at base prices, then at current prices.
    pub fn totals_cells(&self, totalsrow: &TotalsRow) -> (r: Vec<(usize, u64)>)
        requires
            self.wf(),
        ensures
            r@ == basis_cells(
                price_place(self.main_set@, self.base_set@, "base"@, 0, totalsrow.name@),
                totalsrow.base_price@,
            ) + basis_cells(
                price_place(self.main_set@, self.curr_set@, "curr"@, col_sum(self.base_set@), totalsrow.name@),
                totalsrow.curr_price@,
            ),
    {
        let mut out: Vec<(usize, u64)> = Vec::new();
        let base_offset: usize = 0;
        let curr_offset = self.base_set.get_number_of_columns() as usize;
        self.push_basis_cells(&mut out, &self.base_set, "base", base_offset, totalsrow.name.as_str(), &totalsrow.base_price);
        self.push_basis_cells(&mut out, &self.curr_set, "curr", curr_offset, totalsrow.name.as_str(), &totalsrow.curr_price);
        out
    }

    fn push_basis_cells(
        &self,
        out: &mut Vec<(usize, u64)>,
        region: &ExcelDataSet,
        kind: &str,
        offset: usize,
        name: &str,
        prices: &Vec<Option<u64>>,
    )
        requires
            self.main_set.wf(),
            region.wf(),
            offset <= u16::MAX,
            kind@ == "base"@ || kind@ == "curr"@,
        ensures
            final(out)@ == old(out)@ + basis_cells(
                price_place(self.main_set@, region@, kind@, offset as int, name@),
                prices@,
            ),
    {
        proof {
            reveal_strlit("base");
            reveal_strlit("curr");
        }
        let main_width = self.main_set.get_number_of_columns() as usize;
        let hit = match region.hit_place(kind, name) {
            Some(h) => Some(h),
            None => self.main_set.hit_place(kind, name),
        };
        let (col, width) = match hit {
            Some((c, wd)) => (c as usize, wd as usize),
            None => {
                assert(out@ + Seq::<(usize, u64)>::empty() =~= out@);
                return;
            },
        };
        let start = main_width + offset + col;
        let n = if width < prices.len() { width } else { prices.len() };
        let ghost base = out@;
        let mut k: usize = 0;
        while k < n
            invariant
                k <= n <= prices@.len(),
                n <= 65535,
                start <= 3 * 65535,
                out@ == base + price_cells(start as int, prices@, k as nat),
            decreases n - k,
        {
            if let Some(x) = prices[k] {
                out.push((start + k, x));
                assert(out@ =~= base + price_cells(start as int, prices@, (k + 1) as nat));
            } else {
                assert(out@ =~= base + price_cells(start as int, prices@, (k + 1) as nat));
            }
            k += 1;
        }
    }
}

impl ExcelDataSet {
    /// The first column and the width of the column that an exact lookup for `name`
    /// of `kind` finds.
    fn hit_place(&self, kind: &str, name: &str) -> (r: Option<(u16, u16)>)
        requires
            self.wf(),
            valid_kind(kind@),
        ensures
            match region_hit(self@, kind@, name@) {
                Some((c, wd)) => r == Some((c as u16, wd as u16)) && 0 <= c <= col_sum(self@) && col_sum(self@)
                    <= u16::MAX,
                None => r is None,
            },
    {
        let ghost v = self@;
        let mut p: usize = 0;
        while p < self.vector.len()
            invariant
                v == self@,
                v == configs_view(self.vector@),
                self.wf(),
                valid_kind(kind@),
                p <= v.len(),
                first_hit(v, kind@, name@, Matches::Exact, 0) == first_hit(v, kind@, name@, Matches::Exact, p as nat),
            decreases v.len() - p,
        {
            assert(v[p as int] == self.vector@[p as int]@);
            if first_hit_here(&self.vector[p], kind, name) {
                let found = self.get_index_and_address_by_columns(kind, name, Matches::Exact);
                proof {
                    lemma_col_sum_prefix(v, p as int);
                }
                return match found {
                    Some((_, col)) => Some((col, self.vector[p].expected_columns)),
                    None => None,
                };
            }
            p += 1;
        }
        None
    }
}

/// Whether `c` is the column that an exact lookup for `name` of `kind` finds.
fn first_hit_here(c: &ExtractionConfig, kind: &str, name: &str) -> (r: bool)
    ensures
        r == hit(c@, kind@, name@, Matches::Exact),
{
    match c.moving {
        Moving::Del => false,
        _ => match &c.source {
            Source::Calculate(text) => str_eq(kind, "calc") && str_eq(name, text),
            Source::InTableHeader(text) => str_eq(kind, "header") && str_eq(name, text),
            Source::AtBasePrices(text, m) => str_eq(kind, "base") && *m == Matches::Exact && str_eq(name, text.as_str()),
            Source::AtCurrPrices(text, m) => str_eq(kind, "curr") && *m == Matches::Exact && str_eq(name, text.as_str()),
        },
    }
}

/// Whether a pinned column is emitted in the header region: not suppressed, and not
/// a totals column that stays in the totals region.
pub open spec fn heading_kept(c: ExtractionConfigView) -> bool {
    c.moving != Moving::Del && !(c.moving == Moving::No && (c.source is AtBasePrices || c.source is AtCurrPrices))
}

/// The pinned columns that the header region emits, in order.
pub open spec fn kept_headings(v: Seq<ExtractionConfigView>) -> Seq<ExtractionConfigView>
    decreases v.len(),
{
    if v.len() == 0 {
        Seq::empty()
    } else if heading_kept(v.last()) {
        kept_headings(v.drop_last()).push(v.last())
    } else {
        kept_headings(v.drop_last())
    }
}

/// The report's columns in order: the emitted pinned columns, then the generated
/// columns at base prices, then those at current prices.
pub open spec fn heading_columns(w: &WritingConfigs) -> Seq<ExtractionConfigView> {
    kept_headings(w.main_set@) + w.base_set@ + w.curr_set@
}

/// The label or field name that a column takes its data from.
pub open spec fn source_name(s: SourceView) -> Seq<char> {
    match s {
        SourceView::InTableHeader(x) => x,
        SourceView::Calculate(x) => x,
        SourceView::AtBasePrices(x, _) => x,
        SourceView::AtCurrPrices(x, _) => x,
    }
}

/// A column's title: its rename or its source's name, marked with the price basis
/// for totals columns.
pub open spec fn heading_title(c: ExtractionConfigView) -> Seq<char> {
    let name = match c.rename {
        Some(r) => r,
        None => source_name(c.source),
    };
    match c.source {
        SourceView::AtBasePrices(_, _) => "БЦ "@ + name,
        SourceView::AtCurrPrices(_, _) => "TЦ "@ + name,
        _ => name,
    }
}

/// The title of one column.
fn title_of(c: &ExtractionConfig) -> (r: String)
    ensures
        r@ == heading_title(c@),
{
    let name: &str = match c.rename {
        Some(x) => x,
        None => match &c.source {
            Source::InTableHeader(x) => x,
            Source::Calculate(x) => x,
            Source::AtBasePrices(x, _) => x.as_str(),
            Source::AtCurrPrices(x, _) => x.as_str(),
        },
    };
    match &c.source {
        Source::AtBasePrices(_, _) => {
            let mut t = String::from_str("БЦ ");
            t.append(name);
            t
        },
        Source::AtCurrPrices(_, _) => {
            let mut t = String::from_str("TЦ ");
            t.append(name);
            t
        },
        _ => String::from_str(name),
    }
}

/// The columns that one list contributes to the report's columns.
pub open spec fn chosen(v: Seq<ExtractionConfigView>, only_kept: bool) -> Seq<ExtractionConfigView> {
    if only_kept {
        kept_headings(v)
    } else {
        v
    }
}

/// Titles and widths of a list of columns.
pub open spec fn titles(s: Seq<ExtractionConfigView>) -> Seq<(Seq<char>, u16)> {
    Seq::new(s.len(), |i: int| (heading_title(s[i]), s[i].expected_columns))
}

/// The mathematical content of a list of titles and widths.
pub open spec fn headings_view(out: Seq<(String, u16)>) -> Seq<(Seq<char>, u16)> {
    Seq::new(out.len(), |i: int| (out[i].0@, out[i].1))
}

fn push_headings(out: &mut Vec<(String, u16)>, cols: &Vec<ExtractionConfig>, only_kept: bool)
    ensures
        headings_view(final(out)@) == headings_view(old(out)@) + titles(chosen(configs_view(cols@), only_kept)),
{
    let ghost v = configs_view(cols@);
    let ghost o = headings_view(out@);
    let mut i: usize = 0;
    assert(v.take(0) =~= Seq::<ExtractionConfigView>::empty());
    assert(titles(chosen(v.take(0), only_kept)) =~= Seq::<(Seq<char>, u16)>::empty());
    assert(o + Seq::<(Seq<char>, u16)>::empty() =~= o);
    while i < cols.len()
        invariant
            v == configs_view(cols@),
            i <= v.len(),
            headings_view(out@) == o + titles(chosen(v.take(i as int), only_kept)),
        decreases v.len() - i,
    {
        let c = &cols[i];
        assert(v[i as int] == c@);
        assert(v.take(i + 1).drop_last() =~= v.take(i as int));
        assert(v.take(i + 1).last() == c@);
        let keep = match c.moving {
            Moving::Del => false,
            Moving::No => match &c.source {
                Source::AtBasePrices(_, _) => false,
                Source::AtCurrPrices(_, _) => false,
                _ => true,
            },
            Moving::Yes => true,
        };
        assert(keep == heading_kept(c@));
        let ghost before = out@;
        let ghost prev = chosen(v.take(i as int), only_kept);
        if !only_kept || keep {
            let t = title_of(c);
            out.push((t, c.expected_columns));
            assert(chosen(v.take(i + 1), only_kept) =~= prev.push(c@));
            assert(titles(prev.push(c@)) =~= titles(prev).push((heading_title(c@), c@.expected_columns)));
            assert(headings_view(out@) =~= headings_view(before).push((heading_title(c@), c@.expected_columns)));
        } else {
            assert(chosen(v.take(i + 1), only_kept) =~= prev);
        }
        i += 1;
    }
    assert(v.take(i as int) =~= v);
}

impl WritingConfigs {
    /// The title and width of every report column, in report order.
    pub fn report_headings(&self) -> (r: Vec<(String, u16)>)
        ensures
            headings_view(r@) == titles(heading_columns(self)),
    {
        let mut out: Vec<(String, u16)> = Vec::new();
        assert(headings_view(out@) =~= Seq::<(Seq<char>, u16)>::empty());
        push_headings(&mut out, self.main_set.columns(), true);
        push_headings(&mut out, self.base_set.columns(), false);
        push_headings(&mut out, self.curr_set.columns(), false);
        proof {
            let k = kept_headings(self.main_set@);
            let b = self.base_set@;
            let c = self.curr_set@;
            assert(titles(k + b + c) =~= Seq::<(Seq<char>, u16)>::empty() + titles(k) + titles(b) + titles(c));
        }
        out
    }
}

} // verus!