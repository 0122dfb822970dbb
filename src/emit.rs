//! What a report row holds in its header region: one cell per pinned column,
//! computed from an act's header fields.
use vstd::prelude::*;
use crate::act::{Act, DataVariant, DesiredCell};
use crate::load::{col_sum, configs_view, ExtractionConfig, ExtractionConfigView, Moving, Source, SourceView, WritingConfigs};
use crate::text::{
    last_segment, last_segment_of, replace_all, replaced, split_chars, split_on, str_eq, strip_prefixes,
    without_prefixes,
};

verus! {

/// What `regex::Regex::new(pattern)` and then `is_match(text)` give: `None` where
/// the pattern does not compile.
pub uninterp spec fn regex_match(pattern: Seq<char>, text: Seq<char>) -> Option<bool>;

/// Relies on `regex::Regex::new` and `regex::Regex::is_match`: whether `text` matches
/// the compiled `pattern`, or `None` for a pattern that does not compile. The result
/// depends on the two texts alone.
#[verifier::external_body]
fn regex_is_match(pattern: &str, text: &str) -> (r: Option<bool>)
    ensures
        r == regex_match(pattern@, text@),
{
    match regex::Regex::new(pattern) {
        Ok(re) => Some(re.is_match(text)),
        Err(_) => None,
    }
}

/// The shape of a date written as text: day, month and year of 2, 2 and 4 digits.
pub const DATE_PATTERN: &'static str = r"^\d{2}.\d{2}.\d{4}$";

/// Whether `c` is an ASCII decimal digit.
pub open spec fn is_digit(c: char) -> bool {
    48 <= (c as int) <= 57
}

/// The value of a run of decimal digits.
pub open spec fn digits_value(s: Seq<char>) -> int
    decreases s.len(),
{
    if s.len() == 0 {
        0
    } else {
        digits_value(s.drop_last()) * 10 + ((s.last() as int) - 48)
    }
}

/// Every character of `s` is a decimal digit.
pub open spec fn all_digits(s: Seq<char>) -> bool {
    forall|i: int| 0 <= i < s.len() ==> is_digit(#[trigger] s[i])
}

/// What `str::parse::<i16>` makes of `s`: an optional sign, then one or more ASCII
/// digits, within the range of `i16`.
pub open spec fn parse_i16(s: Seq<char>) -> Option<i16> {
    let neg = s.len() > 0 && s[0] == '-';
    let body = if s.len() > 0 && (s[0] == '-' || s[0] == '+') {
        s.drop_first()
    } else {
        s
    };
    if body.len() == 0 || !all_digits(body) {
        None
    } else {
        let v = if neg {
            -digits_value(body)
        } else {
            digits_value(body)
        };
        if i16::MIN <= v <= i16::MAX {
            Some(v as i16)
        } else {
            None
        }
    }
}

proof fn lemma_digits_value_nonneg(s: Seq<char>)
    requires
        forall|i: int| 0 <= i < s.len() ==> is_digit(#[trigger] s[i]),
    ensures
        digits_value(s) >= 0,
    decreases s.len(),
{
    if s.len() > 0 {
        assert(is_digit(s[s.len() - 1]));
        lemma_digits_value_nonneg(s.drop_last());
    }
}

/// A number text parsed as `i16`.
pub fn parse_i16_of(s: &Vec<char>) -> (r: Option<i16>)
    ensures
        r == parse_i16(s@),
{
    let n = s.len();
    let neg = n > 0 && s[0] == '-';
    let start: usize = if n > 0 && (s[0] == '-' || s[0] == '+') { 1 } else { 0 };
    let ghost body = if n > 0 && (s@[0] == '-' || s@[0] == '+') { s@.drop_first() } else { s@ };
    assert(body =~= s@.subrange(start as int, n as int));
    if start >= n {
        return None;
    }
    let cap: i64 = 100000;
    let mut acc: i64 = 0;
    let mut i: usize = start;
    while i < n
        invariant
            n == s@.len(),
            start <= i <= n,
            body == s@.subrange(start as int, n as int),
            body == (if s@.len() > 0 && (s@[0] == '-' || s@[0] == '+') { s@.drop_first() } else { s@ }),
            neg == (s@.len() > 0 && s@[0] == '-'),
            forall|j: int| start <= j < i ==> is_digit(#[trigger] s@[j]),
            digits_value(s@.subrange(start as int, i as int)) >= 0,
            acc == (if digits_value(s@.subrange(start as int, i as int)) < cap {
                digits_value(s@.subrange(start as int, i as int))
            } else {
                cap as int
            }),
            cap == 100000,
        decreases n - i,
    {
        let c = s[i];
        if !(c >= '0' && c <= '9') {
            assert(body[i - start] == c);
            assert(!is_digit(body[i - start]));
            assert(!all_digits(body));
            return None;
        }
        let d = (c as u32 - 48) as i64;
        let ghost prev = s@.subrange(start as int, i as int);
        let ghost next = s@.subrange(start as int, i + 1);
        assert(next.drop_last() =~= prev);
        let ghost pv = digits_value(prev);
        assert(digits_value(next) == pv * 10 + d);
        if acc >= cap {
            assert(pv >= cap);
            assert(pv * 10 + d >= cap) by (nonlinear_arith)
                requires
                    pv >= cap,
                    cap == 100000,
                    0 <= d <= 9,
            ;
        } else {
            let v = acc * 10 + d;
            acc = if v >= cap { cap } else { v };
        }
        i += 1;
    }
    assert forall|j: int| 0 <= j < body.len() implies is_digit(#[trigger] body[j]) by {
        assert(body[j] == s@[start + j]);
    };
    assert(all_digits(body));
    assert(s@.subrange(start as int, i as int) == body);
    let v: i64 = if neg { 0 - acc } else { acc };
    if v < -32768 || v > 32767 {
        None
    } else {
        Some(v as i16)
    }
}

/// The numbers among a list of pieces, in order: pieces that do not parse are skipped.
pub open spec fn parsed_numbers(pieces: Seq<Seq<char>>) -> Seq<i16>
    decreases pieces.len(),
{
    if pieces.len() == 0 {
        Seq::empty()
    } else {
        let rest = parsed_numbers(pieces.drop_last());
        match parse_i16(pieces.last()) {
            Some(v) => rest.push(v),
            None => rest,
        }
    }
}

/// Day, month and year of a date written as text: the text must have the shape of
/// `DATE_PATTERN`, and the first three of its dot-separated pieces that are numbers
/// give the date.
pub open spec fn date_of(text: Seq<char>) -> Option<(i16, i16, i16)> {
    if regex_match(DATE_PATTERN@, text) == Some(true) {
        let ns = parsed_numbers(split_on(text, '.'));
        if ns.len() >= 3 {
            Some((ns[0], ns[1], ns[2]))
        } else {
            None
        }
    } else {
        None
    }
}

/// Day, month and year of a date written as text.
pub fn date_parts(text: &str) -> (r: Option<(i16, i16, i16)>)
    ensures
        r == date_of(text@),
{
    match regex_is_match(DATE_PATTERN, text) {
        Some(true) => {},
        _ => return None,
    }
    let pieces = split_chars(text, '.');
    let ghost pv = split_on(text@, '.');
    let mut nums: Vec<i16> = Vec::new();
    let mut k: usize = 0;
    while k < pieces.len()
        invariant
            k <= pieces@.len(),
            pieces@.len() == pv.len(),
            forall|j: int| 0 <= j < pieces@.len() ==> #[trigger] pieces@[j]@ == pv[j],
            nums@ == parsed_numbers(pv.take(k as int)),
        decreases pieces@.len() - k,
    {
        assert(pv.take(k + 1).drop_last() =~= pv.take(k as int));
        assert(pv.take(k + 1).last() == pieces@[k as int]@);
        if let Some(v) = parse_i16_of(&pieces[k]) {
            nums.push(v);
        }
        k += 1;
    }
    assert(pv.take(k as int) =~= pv);
    if nums.len() >= 3 {
        Some((nums[0], nums[1], nums[2]))
    } else {
        None
    }
}

/// One cell of a report row's header region.
#[derive(Debug, PartialEq)]
pub enum HeaderCell {
    /// Text, written as it is.
    Text(String),
    /// A number (the bit pattern of its `f64` value), shown as a date when `as_date`.
    Number { bits: u64, as_date: bool },
    /// A calendar date.
    Date { day: i16, month: i16, year: i16 },
    /// An amount in thousands as cleaned text; the report writes it times 1000.
    Amount(String),
    /// A link to a folder.
    Url(String),
    /// A formula.
    Formula(String),
}

/// The mathematical content of a `HeaderCell`.
pub enum HeaderCellView {
    Text(Seq<char>),
    Number { bits: u64, as_date: bool },
    Date { day: i16, month: i16, year: i16 },
    Amount(Seq<char>),
    Url(Seq<char>),
    Formula(Seq<char>),
}

impl View for HeaderCell {
    type V = HeaderCellView;

    open spec fn view(&self) -> HeaderCellView {
        match self {
            HeaderCell::Text(s) => HeaderCellView::Text(s@),
            HeaderCell::Number { bits, as_date } => HeaderCellView::Number { bits: *bits, as_date: *as_date },
            HeaderCell::Date { day, month, year } => HeaderCellView::Date { day: *day, month: *month, year: *year },
            HeaderCell::Amount(s) => HeaderCellView::Amount(s@),
            HeaderCell::Url(s) => HeaderCellView::Url(s@),
            HeaderCell::Formula(s) => HeaderCellView::Formula(s@),
        }
    }
}

/// The first header field at `k` or later named `name`.
pub open spec fn field_index(names: Seq<DesiredCell>, name: Seq<char>, k: nat) -> Option<nat>
    decreases names.len() - k,
{
    if k >= names.len() {
        None
    } else if names[k as int].name@ == name {
        Some(k)
    } else {
        field_index(names, name, k + 1)
    }
}

/// The act's value of the header field `name`.
pub open spec fn field_value(act: &Act, name: Seq<char>) -> Option<DataVariant> {
    match field_index(act.names_of_header@, name, 0) {
        Some(i) => if i < act.data_of_header@.len() {
            act.data_of_header@[i as int]
        } else {
            None
        },
        None => None,
    }
}

/// The act's text in the header field `name`.
pub open spec fn field_text(act: &Act, name: Seq<char>) -> Option<Seq<char>> {
    match field_value(act, name) {
        Some(DataVariant::String(s)) => Some(s@),
        _ => None,
    }
}

/// The header fields that hold dates.
pub open spec fn is_date_field(name: Seq<char>) -> bool {
    name == "Договор дата"@ || name == "Акт дата"@ || name == "Отчетный период начало"@ || name
        == "Отчетный период окончание"@
}

/// An amount text made ready to be read as a number: the unit words and spaces
/// dropped, the decimal comma made a point.
pub open spec fn amount_text(t: Seq<char>) -> Seq<char> {
    replaced(replaced(replaced(replaced(t, "тыс."@, ""@), "руб."@, ""@), ","@, "."@), " "@, ""@)
}

/// The folder part of a path: the path with its file name taken out.
pub open spec fn folder_of(path: Seq<char>) -> Seq<char> {
    let f = last_segment(path, '\\');
    if f.len() == 0 {
        path
    } else {
        replaced(path, f, ""@)
    }
}

/// The cell of a computed column.
pub open spec fn calc_cell(name: Seq<char>, act: &Act) -> Option<HeaderCellView> {
    if name == "Глава"@ {
        match (field_text(act, "Глава"@), field_text(act, "Глава наименование"@)) {
            (Some(a), Some(b)) => if a.len() > 0 && b.len() > 0 {
                Some(HeaderCellView::Text(a + " «"@ + b + "»"@))
            } else {
                None
            },
            _ => None,
        }
    } else if name == "Смета №"@ {
        match field_text(act, name) {
            Some(t) => Some(HeaderCellView::Text(without_prefixes(t, "Смета № "@))),
            None => None,
        }
    } else if name == "Акт №"@ {
        match field_text(act, name) {
            Some(t) => Some(HeaderCellView::Text(t)),
            None => None,
        }
    } else if name == "По смете в ц.2000г."@ || name == "Выполнение работ в ц.2000г."@ {
        match field_text(act, name) {
            Some(t) => Some(HeaderCellView::Amount(amount_text(t))),
            None => None,
        }
    } else if name == "Папка (ссылка)"@ {
        Some(HeaderCellView::Url(folder_of(act.path@)))
    } else if name == "Файл (ссылка)"@ {
        Some(
            HeaderCellView::Formula(
                "=HYPERLINK(\""@ + act.path@ + "\", \""@ + last_segment(act.path@, '\\') + "\")"@,
            ),
        )
    } else {
        None
    }
}

/// The cell of a pinned column for an act, if it has one.
pub open spec fn cell_for(c: ExtractionConfigView, act: &Act) -> Option<HeaderCellView> {
    match c.source {
        SourceView::InTableHeader(name) => match field_value(act, name) {
            Some(DataVariant::String(s)) => if is_date_field(name) {
                match date_of(s@) {
                    Some((d, m, y)) => Some(HeaderCellView::Date { day: d, month: m, year: y }),
                    None => None,
                }
            } else {
                Some(HeaderCellView::Text(s@))
            },
            Some(DataVariant::Float(x)) => Some(HeaderCellView::Number { bits: x, as_date: is_date_field(name) }),
            None => None,
        },
        SourceView::Calculate(name) => calc_cell(name, act),
        _ => None,
    }
}

/// The header-region cells of a report row for an act: (first column, cell) for
/// every column of `v` that is not suppressed and has a cell.
pub open spec fn header_cells_of(v: Seq<ExtractionConfigView>, act: &Act) -> Seq<(u16, HeaderCellView)>
    decreases v.len(),
{
    if v.len() == 0 {
        Seq::empty()
    } else {
        let rest = header_cells_of(v.drop_last(), act);
        if v.last().moving == Moving::Del {
            rest
        } else {
            match cell_for(v.last(), act) {
                Some(c) => rest.push((col_sum(v.drop_last()) as u16, c)),
                None => rest,
            }
        }
    }
}

/// The mathematical content of a list of header cells.
pub open spec fn cells_view(r: Seq<(u16, HeaderCell)>) -> Seq<(u16, HeaderCellView)> {
    Seq::new(r.len(), |i: int| (r[i].0, r[i].1@))
}

/// The index of the header field `name`.
fn find_field(names: &Vec<DesiredCell>, name: &str) -> (r: Option<usize>)
    ensures
        r matches Some(k) ==> field_index(names@, name@, 0) == Some(k as nat),
        r is None ==> field_index(names@, name@, 0) is None,
{
    let mut k: usize = 0;
    while k < names.len()
        invariant
            k <= names@.len(),
            field_index(names@, name@, 0) == field_index(names@, name@, k as nat),
        decreases names@.len() - k,
    {
        if str_eq(names[k].name, name) {
            return Some(k);
        }
        k += 1;
    }
    None
}

/// The act's text in the header field `name`.
fn field_text_of<'a>(act: &'a Act, name: &str) -> (r: Option<&'a String>)
    ensures
        match field_text(act, name@) {
            Some(t) => r matches Some(x) && x@ == t,
            None => r is None,
        },
{
    match find_field(&act.names_of_header, name) {
        Some(i) => if i < act.data_of_header.len() {
            match &act.data_of_header[i] {
                Some(DataVariant::String(s)) => Some(s),
                _ => None,
            }
        } else {
            None
        },
        None => None,
    }
}

fn is_date_field_name(name: &str) -> (r: bool)
    ensures
        r == is_date_field(name@),
{
    str_eq(name, "Договор дата") || str_eq(name, "Акт дата") || str_eq(name, "Отчетный период начало") || str_eq(
        name,
        "Отчетный период окончание",
    )
}

fn concat(a: &str, b: &str) -> (r: String)
    ensures
        r@ == a@ + b@,
{
    let mut s = String::from_str(a);
    s.append(b);
    s
}

fn calc_cell_of(name: &str, act: &Act) -> (r: Option<HeaderCell>)
    ensures
        match calc_cell(name@, act) {
            Some(c) => r matches Some(x) && x@ == c,
            None => r is None,
        },
{
    if str_eq(name, "Глава") {
        match (field_text_of(act, "Глава"), field_text_of(act, "Глава наименование")) {
            (Some(a), Some(b)) => {
                if a.unicode_len() > 0 && b.unicode_len() > 0 {
                    let mut t = concat(a.as_str(), " «");
                    t.append(b.as_str());
                    t.append("»");
                    Some(HeaderCell::Text(t))
                } else {
                    None
                }
            },
            _ => None,
        }
    } else if str_eq(name, "Смета №") {
        match field_text_of(act, name) {
            Some(t) => Some(HeaderCell::Text(strip_prefixes(t.as_str(), "Смета № "))),
            None => None,
        }
    } else if str_eq(name, "Акт №") {
        match field_text_of(act, name) {
            Some(t) => Some(HeaderCell::Text(t.clone())),
            None => None,
        }
    } else if str_eq(name, "По смете в ц.2000г.") || str_eq(name, "Выполнение работ в ц.2000г.") {
        match field_text_of(act, name) {
            Some(t) => {
                proof {
                    reveal_strlit("тыс.");
                    reveal_strlit("руб.");
                    reveal_strlit(",");
                    reveal_strlit(" ");
                }
                let a = replace_all(t.as_str(), "тыс.", "");
                let b = replace_all(a.as_str(), "руб.", "");
                let c = replace_all(b.as_str(), ",", ".");
                let d = replace_all(c.as_str(), " ", "");
                Some(HeaderCell::Amount(d))
            },
            None => None,
        }
    } else if str_eq(name, "Папка (ссылка)") {
        let f = last_segment_of(act.path.as_str(), '\\');
        if f.unicode_len() == 0 {
            Some(HeaderCell::Url(act.path.clone()))
        } else {
            Some(HeaderCell::Url(replace_all(act.path.as_str(), f.as_str(), "")))
        }
    } else if str_eq(name, "Файл (ссылка)") {
        let f = last_segment_of(act.path.as_str(), '\\');
        let mut t = concat("=HYPERLINK(\"", act.path.as_str());
        t.append("\", \"");
        t.append(f.as_str());
        t.append("\")");
        Some(HeaderCell::Formula(t))
    } else {
        None
    }
}

fn cell_of(c: &ExtractionConfig, act: &Act) -> (r: Option<HeaderCell>)
    ensures
        match cell_for(c@, act) {
            Some(x) => r matches Some(y) && y@ == x,
            None => r is None,
        },
{
    match &c.source {
        Source::InTableHeader(name) => {
            let value = match find_field(&act.names_of_header, name) {
                Some(i) => if i < act.data_of_header.len() {
                    &act.data_of_header[i]
                } else {
                    return None;
                },
                None => return None,
            };
            match value {
                Some(DataVariant::String(s)) => if is_date_field_name(name) {
                    match date_parts(s.as_str()) {
                        Some((day, month, year)) => Some(HeaderCell::Date { day, month, year }),
                        None => None,
                    }
                } else {
                    Some(HeaderCell::Text(s.clone()))
                },
                Some(DataVariant::Float(x)) => Some(HeaderCell::Number { bits: *x, as_date: is_date_field_name(name) }),
                None => None,
            }
        },
        Source::Calculate(name) => calc_cell_of(name, act),
        _ => None,
    }
}

impl WritingConfigs {
    /// The header-region cells of the report row of `act`: the first column of each
    /// pinned column that is not suppressed, with the cell written there.
    pub fn header_cells(&self, act: &Act) -> (r: Vec<(u16, HeaderCell)>)
        requires
            self.main_set.wf(),
        ensures
            cells_view(r@) == header_cells_of(self.main_set@, act),
    {
        let cols = self.main_set.columns();
        let ghost v = self.main_set@;
        let mut out: Vec<(u16, HeaderCell)> = Vec::new();
        let mut column: u16 = 0;
        let mut i: usize = 0;
        proof {
            self.main_set.lemma_width_fits();
        }
        assert(cells_view(out@) =~= header_cells_of(v.take(0), act));
        while i < cols.len()
            invariant
                v == configs_view(cols@),
                col_sum(v) <= u16::MAX,
                i <= v.len(),
                column == col_sum(v.take(i as int)),
                cells_view(out@) == header_cells_of(v.take(i as int), act),
            decreases v.len() - i,
        {
            let c = &cols[i];
            proof {
                assert(v[i as int] == c@);
                assert(v.take(i + 1).drop_last() =~= v.take(i as int));
                assert(v.take(i + 1).last() == c@);
                crate::load::lemma_col_sum_prefix(v, i + 1);
            }
            if c.moving != Moving::Del {
                let ghost before = out@;
                match cell_of(c, act) {
                    Some(cell) => {
                        out.push((column, cell));
                        assert(cells_view(out@) =~= cells_view(before).push((column, out@[before.len() as int].1@)));
                    },
                    None => {},
                }
                column = column + c.expected_columns;
            }
            i += 1;
        }
        assert(v.take(i as int) =~= v);
        out
    }
}

} // verus!
