//! The outcome of a query, as a table of text or as JSON.

use vstd::prelude::*;

use crate::json;
use crate::json::{Json, JsonMap, JsonView};
use crate::text;

verus! {

/// The outcome of a query: the names of the columns, and the rows.
#[derive(Debug)]
pub struct QueryResult {
    pub columns: Vec<String>,
    pub rows: Vec<Vec<Json>>,
}

impl QueryResult {
    /// Whether no row has more cells than there are columns, where there are columns at all.
    pub open spec fn wf(&self) -> bool {
        self.columns@.len() > 0 ==> forall|i: int|
            0 <= i < self.rows@.len() ==> (#[trigger] self.rows@[i])@.len() <= self.columns@.len()
    }

    /// The rows.
    pub open spec fn rows_view(&self) -> Seq<Seq<JsonView>> {
        Seq::new(self.rows@.len(), |i: int| json::items_view(self.rows@[i]@))
    }
}

// --- the table --------------------------------------------------------------------------

/// What is shown in a cell: nothing for `null`, text as it is, an integer in decimal, a truth
/// value as its word, and anything else as JSON.
pub open spec fn cell_text(v: JsonView) -> Seq<char> {
    match v {
        JsonView::Null => seq![],
        JsonView::Str(s) => s,
        JsonView::Int(n) => text::int_text(n),
        JsonView::Bool(b) => if b {
            "true"@
        } else {
            "false"@
        },
        _ => json::text_of_json(v),
    }
}

/// What is shown in the cells of a row.
pub open spec fn cell_texts(row: Seq<JsonView>) -> Seq<Seq<char>> {
    row.map_values(|v: JsonView| cell_text(v))
}

/// The width of a column over its heading and the first `n` rows.
pub open spec fn width(
    columns: Seq<Seq<char>>,
    rows: Seq<Seq<JsonView>>,
    column: int,
    n: nat,
) -> nat
    decreases n,
{
    if n == 0 || n > rows.len() {
        columns[column].len()
    } else {
        let before = width(columns, rows, column, (n - 1) as nat);
        let row = rows[n - 1];
        if column < row.len() && cell_text(row[column]).len() > before {
            cell_text(row[column]).len()
        } else {
            before
        }
    }
}

/// The widths of the columns.
pub open spec fn widths(columns: Seq<Seq<char>>, rows: Seq<Seq<JsonView>>) -> Seq<nat> {
    Seq::new(columns.len(), |i: int| width(columns, rows, i, rows.len()))
}

/// A line of the table: the cells, each as wide as its column, without blanks at the end.
pub open spec fn line_text(cells: Seq<Seq<char>>, widths: Seq<nat>) -> Seq<char> {
    let padded = Seq::new(cells.len(), |i: int| text::padded_right(cells[i], widths[i] as int));
    text::cut_end(text::joined(padded, "  "@), text::Class::White) + "\n"@
}

/// The line under the heading.
pub open spec fn rule_text(widths: Seq<nat>) -> Seq<char> {
    text::joined(widths.map_values(|w: nat| text::repeated('-', w as int)), "  "@) + "\n"@
}

/// The first `n` rows, a line each.
pub open spec fn lines_text(rows: Seq<Seq<JsonView>>, widths: Seq<nat>, n: nat) -> Seq<char>
    decreases n,
{
    if n == 0 || n > rows.len() {
        seq![]
    } else {
        lines_text(rows, widths, (n - 1) as nat) + line_text(cell_texts(rows[n - 1]), widths)
    }
}

/// The table: the heading, a rule, and a line for each row.
pub open spec fn table_text(columns: Seq<Seq<char>>, rows: Seq<Seq<JsonView>>) -> Seq<char> {
    if columns.len() == 0 {
        "(no columns)\n"@
    } else {
        let w = widths(columns, rows);
        line_text(columns, w) + rule_text(w) + lines_text(rows, w, rows.len())
    }
}

/// What is shown in a cell.
pub fn cell_to_string(v: &Json) -> (r: String)
    ensures
        r@ == cell_text(v@),
{
    match v {
        Json::Null => String::new(),
        Json::Str(s) => s.clone(),
        _ => v.to_text(),
    }
}

/// The widths as natural numbers.
pub open spec fn as_nats(w: Seq<usize>) -> Seq<nat> {
    w.map_values(|n: usize| n as nat)
}

/// A line of the table.
fn render_line(cells: &Vec<String>, widths: &Vec<usize>) -> (r: String)
    requires
        cells@.len() <= widths@.len(),
    ensures
        r@ == line_text(text::texts(cells@), as_nats(widths@)),
{
    let mut padded: Vec<String> = Vec::new();
    let mut i: usize = 0;
    while i < cells.len()
        invariant
            i <= cells@.len() <= widths@.len(),
            padded@.len() == i,
            forall|j: int|
                0 <= j < i ==> (#[trigger] padded@[j])@ == text::padded_right(
                    cells@[j]@,
                    widths@[j] as int,
                ),
        decreases cells@.len() - i,
    {
        padded.push(text::pad_right(cells[i].as_str(), widths[i]));
        i += 1;
    }
    proof {
        let c = text::texts(cells@);
        let w = as_nats(widths@);
        assert(text::texts(padded@) =~= Seq::new(
            c.len(),
            |i: int| text::padded_right(c[i], w[i] as int),
        ));
    }
    let all = text::join(&padded, "  ");
    let mut out = text::trim_end(all.as_str(), text::Class::White);
    out.append("\n");
    out
}

/// The line under the heading.
fn render_rule(widths: &Vec<usize>) -> (r: String)
    ensures
        r@ == rule_text(as_nats(widths@)),
{
    let mut parts: Vec<String> = Vec::new();
    let mut i: usize = 0;
    while i < widths.len()
        invariant
            i <= widths@.len(),
            parts@.len() == i,
            forall|j: int|
                0 <= j < i ==> (#[trigger] parts@[j])@ == text::repeated('-', widths@[j] as int),
        decreases widths@.len() - i,
    {
        let mut part = String::new();
        text::push_repeated(&mut part, '-', widths[i]);
        assert(part@ == text::repeated('-', widths@[i as int] as int));
        parts.push(part);
        i += 1;
    }
    assert(text::texts(parts@) =~= as_nats(widths@).map_values(
        |w: nat| text::repeated('-', w as int),
    ));
    let mut out = text::join(&parts, "  ");
    out.append("\n");
    out
}

/// What is shown in the cells of a row.
fn row_cells(row: &Vec<Json>) -> (r: Vec<String>)
    ensures
        text::texts(r@) == cell_texts(json::items_view(row@)),
{
    let mut cells: Vec<String> = Vec::new();
    let mut i: usize = 0;
    while i < row.len()
        invariant
            i <= row@.len(),
            cells@.len() == i,
            forall|j: int| 0 <= j < i ==> (#[trigger] cells@[j])@ == cell_text(row@[j]@),
        decreases row@.len() - i,
    {
        cells.push(cell_to_string(&row[i]));
        i += 1;
    }
    assert(text::texts(cells@) =~= cell_texts(json::items_view(row@)));
    cells
}

/// Renders the outcome of a query as a table.
pub fn render_query_table(r: &QueryResult) -> (out: String)
    requires
        r.wf(),
    ensures
        out@ == table_text(text::texts(r.columns@), r.rows_view()),
{
    if r.columns.len() == 0 {
        return "(no columns)\n".to_owned();
    }
    let ghost columns = text::texts(r.columns@);
    let ghost rows = r.rows_view();
    let mut cells: Vec<Vec<String>> = Vec::new();
    let mut n: usize = 0;
    while n < r.rows.len()
        invariant
            n <= r.rows@.len(),
            cells@.len() == n,
            rows == r.rows_view(),
            forall|j: int|
                0 <= j < n ==> text::texts((#[trigger] cells@[j])@) == cell_texts(rows[j]),
        decreases r.rows@.len() - n,
    {
        cells.push(row_cells(&r.rows[n]));
        n += 1;
    }
    let mut wide: Vec<usize> = Vec::new();
    let mut i: usize = 0;
    while i < r.columns.len()
        invariant
            i <= r.columns@.len(),
            columns == text::texts(r.columns@),
            wide@.len() == i,
            forall|j: int| 0 <= j < i ==> #[trigger] wide@[j] == width(columns, rows, j, 0),
        decreases r.columns@.len() - i,
    {
        wide.push(r.columns[i].as_str().unicode_len());
        i += 1;
    }
    n = 0;
    while n < cells.len()
        invariant
            n <= cells@.len(),
            cells@.len() == rows.len(),
            rows == r.rows_view(),
            r.wf(),
            columns == text::texts(r.columns@),
            wide@.len() == columns.len(),
            forall|j: int|
                0 <= j < rows.len() ==> text::texts((#[trigger] cells@[j])@) == cell_texts(
                    rows[j],
                ),
            forall|j: int|
                0 <= j < wide@.len() ==> #[trigger] wide@[j] == width(columns, rows, j, n as nat),
        decreases cells@.len() - n,
    {
        let ghost row = rows[n as int];
        assert(text::texts(cells@[n as int]@).len() == cell_texts(row).len());
        assert(row.len() == r.rows@[n as int]@.len());
        i = 0;
        while i < wide.len()
            invariant
                i <= wide@.len(),
                wide@.len() == columns.len(),
                n < cells@.len(),
                cells@.len() == rows.len(),
                row == rows[n as int],
                cells@[n as int]@.len() == row.len(),
                text::texts(cells@[n as int]@) == cell_texts(row),
                forall|j: int|
                    0 <= j < i ==> #[trigger] wide@[j] == width(columns, rows, j, (n + 1) as nat),
                forall|j: int|
                    i <= j < wide@.len() ==> #[trigger] wide@[j] == width(
                        columns,
                        rows,
                        j,
                        n as nat,
                    ),
            decreases wide@.len() - i,
        {
            if i < cells[n].len() {
                let len: usize = cells[n][i].as_str().unicode_len();
                assert(len == cell_texts(row)[i as int].len()) by {
                    assert(text::texts(cells@[n as int]@)[i as int] == cells@[n as int]@[i as int]@);
                }
                if len > wide[i] {
                    wide.set(i, len);
                }
            }
            i += 1;
        }
        n += 1;
    }
    assert(as_nats(wide@) =~= widths(columns, rows));
    let mut out = render_line(&r.columns, &wide);
    out.append(render_rule(&wide).as_str());
    let ghost w = as_nats(wide@);
    let ghost head = out@;
    assert(head + lines_text(rows, w, 0) == head);
    n = 0;
    while n < cells.len()
        invariant
            n <= cells@.len(),
            cells@.len() == rows.len(),
            rows == r.rows_view(),
            r.wf(),
            r.columns@.len() > 0,
            wide@.len() == r.columns@.len(),
            w == as_nats(wide@),
            forall|j: int|
                0 <= j < rows.len() ==> text::texts((#[trigger] cells@[j])@) == cell_texts(
                    rows[j],
                ),
            out@ == head + lines_text(rows, w, n as nat),
        decreases cells@.len() - n,
    {
        let ghost before = lines_text(rows, w, n as nat);
        assert(text::texts(cells@[n as int]@).len() == cell_texts(rows[n as int]).len());
        assert(rows[n as int].len() == r.rows@[n as int]@.len());
        let line = render_line(&cells[n], &wide);
        out.append(line.as_str());
        assert(head + before + line@ == head + (before + line@));
        n += 1;
    }
    out
}

/// How many rows there are, in words.
pub open spec fn count_text(n: nat) -> Seq<char> {
    "("@ + text::nat_text(n) + (if n == 1 {
        " row)"@
    } else {
        " rows)"@
    })
}

/// How many rows there are, in words.
pub fn row_count(n: usize) -> (r: String)
    ensures
        r@ == count_text(n as nat),
{
    let mut out = "(".to_owned();
    out.append(text::show_usize(n).as_str());
    out.append(
        if n == 1 {
            " row)"
        } else {
            " rows)"
        },
    );
    out
}

// --- JSON -------------------------------------------------------------------------------

/// The `k`-th name for a column.
pub open spec fn numbered_name(column: Seq<char>, k: nat) -> Seq<char> {
    column + "_"@ + text::nat_text(k)
}

/// Whether `key` is the name under which a column goes into an object: its own name, or
/// where that is taken the first of its numbered names, from the second on, that is not.
pub open spec fn names_column(
    fields: Map<Seq<char>, JsonView>,
    column: Seq<char>,
    key: Seq<char>,
) -> bool {
    if !fields.contains_key(column) {
        key == column
    } else {
        exists|k: nat|
            2 <= k && key == #[trigger] numbered_name(column, k) && !fields.contains_key(key) && (
            forall|j: nat|
                2 <= j < k ==> fields.contains_key(#[trigger] numbered_name(column, j)))
    }
}

/// The name under which a column goes into an object.
pub open spec fn column_key(fields: Map<Seq<char>, JsonView>, column: Seq<char>) -> Seq<char> {
    choose|key: Seq<char>| names_column(fields, column, key)
}

/// The fields that the first `n` cells of a row make.
pub open spec fn row_fields(columns: Seq<Seq<char>>, row: Seq<JsonView>, n: nat) -> Map<
    Seq<char>,
    JsonView,
>
    decreases n,
{
    if n == 0 || n > columns.len() || n > row.len() {
        Map::empty()
    } else {
        let before = row_fields(columns, row, (n - 1) as nat);
        before.insert(column_key(before, columns[n - 1]), row[n - 1])
    }
}

/// How many cells of a row have a column.
pub open spec fn cells_used(columns: Seq<Seq<char>>, row: Seq<JsonView>) -> nat {
    if columns.len() <= row.len() {
        columns.len()
    } else {
        row.len()
    }
}

/// A row as an object.
pub open spec fn row_object(columns: Seq<Seq<char>>, row: Seq<JsonView>) -> JsonView {
    JsonView::Object(row_fields(columns, row, cells_used(columns, row)))
}

/// The outcome of a query as an array of objects.
pub open spec fn query_value(columns: Seq<Seq<char>>, rows: Seq<Seq<JsonView>>) -> JsonView {
    JsonView::Array(rows.map_values(|row: Seq<JsonView>| row_object(columns, row)))
}

/// The numbered names of a column from the second up to the `k`-th, that one left out.
spec fn names_below(column: Seq<char>, k: nat) -> Set<Seq<char>>
    decreases k,
{
    if k <= 2 {
        Set::empty()
    } else {
        names_below(column, (k - 1) as nat).insert(numbered_name(column, (k - 1) as nat))
    }
}

proof fn lemma_names_differ(column: Seq<char>, j: nat, k: nat)
    requires
        numbered_name(column, j) == numbered_name(column, k),
    ensures
        j == k,
{
    text::lemma_digits_read_back(j);
    text::lemma_digits_read_back(k);
    let n = (column + "_"@).len() as int;
    assert(numbered_name(column, j).skip(n) == text::nat_text(j));
    assert(numbered_name(column, k).skip(n) == text::nat_text(k));
}

proof fn lemma_names_below(column: Seq<char>, k: nat)
    requires
        k >= 2,
    ensures
        names_below(column, k).finite(),
        names_below(column, k).len() == k - 2,
        forall|s: Seq<char>| #[trigger]
            names_below(column, k).contains(s) ==> exists|j: nat|
                2 <= j < k && s == #[trigger] numbered_name(column, j),
    decreases k,
{
    if k > 2 {
        lemma_names_below(column, (k - 1) as nat);
        let last = numbered_name(column, (k - 1) as nat);
        let before = names_below(column, (k - 1) as nat);
        if before.contains(last) {
            let j = choose|j: nat| 2 <= j < k - 1 && last == #[trigger] numbered_name(column, j);
            lemma_names_differ(column, j, (k - 1) as nat);
        }
        assert forall|s: Seq<char>| #[trigger] names_below(column, k).contains(s) implies exists|
            j: nat,
        | 2 <= j < k && s == #[trigger] numbered_name(column, j) by {
            if s == last {
                assert(s == numbered_name(column, (k - 1) as nat));
            } else {
                assert(before.contains(s));
                let j = choose|j: nat| 2 <= j < k - 1 && s == #[trigger] numbered_name(column, j);
                assert(s == numbered_name(column, j));
            }
        }
    }
}

proof fn lemma_names_taken(fields: Map<Seq<char>, JsonView>, column: Seq<char>, k: nat)
    requires
        k >= 2,
        fields.dom().finite(),
        fields.contains_key(column),
        forall|j: nat| 2 <= j < k ==> fields.contains_key(#[trigger] numbered_name(column, j)),
    ensures
        k - 1 <= fields.dom().len(),
{
    lemma_names_below(column, k);
    let taken = names_below(column, k);
    if taken.contains(column) {
        let j = choose|j: nat| 2 <= j < k && column == #[trigger] numbered_name(column, j);
        text::lemma_digits_read_back(j);
        assert(numbered_name(column, j).len() > column.len());
    }
    assert(taken.insert(column).subset_of(fields.dom()));
    vstd::set_lib::lemma_len_subset(taken.insert(column), fields.dom());
}

proof fn lemma_one_name(
    fields: Map<Seq<char>, JsonView>,
    column: Seq<char>,
    a: Seq<char>,
    b: Seq<char>,
)
    requires
        names_column(fields, column, a),
        names_column(fields, column, b),
    ensures
        a == b,
{
    if fields.contains_key(column) {
        let i = choose|k: nat|
            2 <= k && a == #[trigger] numbered_name(column, k) && !fields.contains_key(a) && (
            forall|j: nat|
                2 <= j < k ==> fields.contains_key(#[trigger] numbered_name(column, j)));
        let m = choose|k: nat|
            2 <= k && b == #[trigger] numbered_name(column, k) && !fields.contains_key(b) && (
            forall|j: nat|
                2 <= j < k ==> fields.contains_key(#[trigger] numbered_name(column, j)));
        if i < m {
            assert(fields.contains_key(numbered_name(column, i)));
        } else if m < i {
            assert(fields.contains_key(numbered_name(column, m)));
        }
    }
}

/// The name under which a column goes into an object that has `count` fields.
fn free_name(fields: &JsonMap, column: &str, count: usize) -> (r: String)
    requires
        fields@.dom().finite(),
        fields@.dom().len() <= count < usize::MAX,
    ensures
        names_column(fields@, column@, r@),
        r@ == column_key(fields@, column@),
        !fields@.contains_key(r@),
{
    let mut key = column.to_owned();
    if !fields.contains_key(column) {
        proof {
            lemma_one_name(fields@, column@, column@, column_key(fields@, column@));
        }
        return key;
    }
    let mut k: u64 = 2;
    loop
        invariant
            fields@.dom().finite(),
            fields@.dom().len() <= count < usize::MAX,
            fields@.contains_key(column@),
            2 <= k <= count + 1,
            forall|j: nat|
                2 <= j < k ==> fields@.contains_key(#[trigger] numbered_name(column@, j)),
        decreases count + 2 - k,
    {
        key = column.to_owned();
        key.append("_");
        key.append(text::show_u64(k).as_str());
        assert(key@ == numbered_name(column@, k as nat));
        if !fields.contains_key(key.as_str()) {
            proof {
                assert(names_column(fields@, column@, key@));
                lemma_one_name(fields@, column@, key@, column_key(fields@, column@));
            }
            return key;
        }
        proof {
            lemma_names_taken(fields@, column@, (k + 1) as nat);
        }
        k += 1;
    }
}

/// A row as an object.
fn object_of(columns: &Vec<String>, row: &Vec<Json>) -> (r: Json)
    ensures
        r@ == row_object(text::texts(columns@), json::items_view(row@)),
{
    let ghost names = text::texts(columns@);
    let ghost cells = json::items_view(row@);
    let mut fields = JsonMap::new();
    let mut i: usize = 0;
    while i < columns.len() && i < row.len()
        invariant
            i <= columns@.len(),
            i <= row@.len(),
            names == text::texts(columns@),
            cells == json::items_view(row@),
            fields@ == row_fields(names, cells, i as nat),
            fields@.dom().finite(),
            fields@.dom().len() == i,
        decreases columns@.len() - i,
    {
        let key = free_name(&fields, columns[i].as_str(), i);
        fields.insert(key.as_str(), row[i].copy());
        i += 1;
    }
    Json::Object(fields)
}

/// The outcome of a query as an array of objects. Where two columns have the same name the
/// later one is numbered.
pub fn query_json(r: &QueryResult) -> (out: Json)
    ensures
        out@ == query_value(text::texts(r.columns@), r.rows_view()),
{
    let ghost names = text::texts(r.columns@);
    let mut items: Vec<Json> = Vec::new();
    let mut i: usize = 0;
    while i < r.rows.len()
        invariant
            i <= r.rows@.len(),
            names == text::texts(r.columns@),
            items@.len() == i,
            forall|j: int|
                0 <= j < i ==> (#[trigger] items@[j])@ == row_object(names, r.rows_view()[j]),
        decreases r.rows@.len() - i,
    {
        items.push(object_of(&r.columns, &r.rows[i]));
        i += 1;
    }
    assert(json::items_view(items@) =~= r.rows_view().map_values(
        |row: Seq<JsonView>| row_object(names, row),
    ));
    Json::Array(items)
}

proof fn lemma_name_exists(fields: Map<Seq<char>, JsonView>, column: Seq<char>, k: nat)
    requires
        2 <= k <= fields.dom().len() + 1,
        fields.dom().finite(),
        fields.contains_key(column),
        forall|j: nat| 2 <= j < k ==> fields.contains_key(#[trigger] numbered_name(column, j)),
    ensures
        names_column(fields, column, column_key(fields, column)),
        !fields.contains_key(column_key(fields, column)),
    decreases fields.dom().len() + 2 - k,
{
    let key = numbered_name(column, k);
    if fields.contains_key(key) {
        lemma_names_taken(fields, column, k + 1);
        lemma_name_exists(fields, column, k + 1);
    } else {
        assert(names_column(fields, column, key));
        lemma_one_name(fields, column, key, column_key(fields, column));
    }
}

/// No column is dropped: each cell of a row has a field of its own, also where columns share
/// a name.
pub proof fn law_no_column_is_dropped(columns: Seq<Seq<char>>, row: Seq<JsonView>, n: nat)
    requires
        n <= columns.len(),
        n <= row.len(),
    ensures
        row_fields(columns, row, n).dom().finite(),
        row_fields(columns, row, n).dom().len() == n,
        forall|i: int|
            0 <= i < n ==> exists|key: Seq<char>|
                row_fields(columns, row, n).contains_key(key) && #[trigger] row_fields(
                    columns,
                    row,
                    n,
                )[key] == #[trigger] row[i],
    decreases n,
{
    if n > 0 {
        let m = (n - 1) as nat;
        law_no_column_is_dropped(columns, row, m);
        let before = row_fields(columns, row, m);
        let column = columns[m as int];
        let key = column_key(before, column);
        if before.contains_key(column) {
            lemma_name_exists_from_two(before, column);
        } else {
            lemma_one_name(before, column, column, key);
        }
        let after = row_fields(columns, row, n);
        assert forall|i: int| 0 <= i < n implies exists|k: Seq<char>|
            after.contains_key(k) && #[trigger] after[k] == #[trigger] row[i] by {
            if i < m {
                let k = choose|k: Seq<char>| before.contains_key(k) && #[trigger] before[k] == row[i];
                assert(after[k] == row[i]);
            } else {
                assert(after[key] == row[i]);
            }
        }
    } else {
        assert(row_fields(columns, row, n) == Map::<Seq<char>, JsonView>::empty());
    }
}

proof fn lemma_name_exists_from_two(fields: Map<Seq<char>, JsonView>, column: Seq<char>)
    requires
        fields.dom().finite(),
        fields.contains_key(column),
    ensures
        names_column(fields, column, column_key(fields, column)),
        !fields.contains_key(column_key(fields, column)),
{
    assert(fields.dom().contains(column));
    if fields.dom().len() == 0 {
        assert(fields.dom() == Set::<Seq<char>>::empty());
    }
    lemma_name_exists(fields, column, 2);
}

proof fn lemma_lines_of_front(
    a: Seq<Seq<JsonView>>,
    b: Seq<Seq<JsonView>>,
    w: Seq<nat>,
    n: nat,
)
    requires
        n <= a.len(),
    ensures
        lines_text(a + b, w, n) == lines_text(a, w, n),
    decreases n,
{
    if n > 0 {
        lemma_lines_of_front(a, b, w, (n - 1) as nat);
        assert((a + b)[n - 1] == a[n - 1]);
    }
}

proof fn lemma_lines_add(a: Seq<Seq<JsonView>>, b: Seq<Seq<JsonView>>, w: Seq<nat>, n: nat)
    requires
        n <= b.len(),
    ensures
        lines_text(a + b, w, a.len() + n) == lines_text(a, w, a.len()) + lines_text(b, w, n),
    decreases n,
{
    lemma_lines_of_front(a, b, w, a.len());
    if n == 0 {
        assert(lines_text(a, w, a.len()) + Seq::<char>::empty() == lines_text(a, w, a.len()));
    } else {
        let m = (n - 1) as nat;
        lemma_lines_add(a, b, w, m);
        let k = a.len() + n;
        assert((a + b)[k - 1] == b[n - 1]);
        let line = line_text(cell_texts(b[n - 1]), w);
        assert(lines_text(a + b, w, k) == lines_text(a + b, w, (k - 1) as nat) + line);
        assert((k - 1) as nat == a.len() + m);
        assert(lines_text(a, w, a.len()) + lines_text(b, w, m) + line == lines_text(a, w, a.len())
            + (lines_text(b, w, m) + line));
    }
}

/// Every row of a table is shown, in its place among the others, below the names of the columns.
pub proof fn law_every_row_is_shown(
    columns: Seq<Seq<char>>,
    a: Seq<Seq<JsonView>>,
    row: Seq<JsonView>,
    b: Seq<Seq<JsonView>>,
)
    requires
        columns.len() > 0,
    ensures
        ({
            let rows = a.push(row) + b;
            let w = widths(columns, rows);
            table_text(columns, rows) == line_text(columns, w) + rule_text(w) + lines_text(
                a,
                w,
                a.len(),
            ) + line_text(cell_texts(row), w) + lines_text(b, w, b.len())
        }),
{
    let rows = a.push(row) + b;
    let w = widths(columns, rows);
    lemma_lines_add(a.push(row), b, w, b.len());
    lemma_lines_of_front(a, seq![row], w, a.len());
    assert(a + seq![row] == a.push(row));
    let head = line_text(columns, w) + rule_text(w);
    let x = lines_text(a, w, a.len());
    let y = line_text(cell_texts(row), w);
    let z = lines_text(b, w, b.len());
    assert(lines_text(a.push(row), w, a.push(row).len()) == x + y);
    assert(head + (x + y + z) == head + x + y + z);
}

proof fn lemma_width(columns: Seq<Seq<char>>, rows: Seq<Seq<JsonView>>, c: int, n: nat)
    requires
        0 <= c < columns.len(),
        n <= rows.len(),
    ensures
        width(columns, rows, c, n) >= columns[c].len(),
        forall|i: int|
            0 <= i < n && c < (#[trigger] rows[i]).len() ==> width(columns, rows, c, n)
                >= cell_text(rows[i][c]).len(),
        width(columns, rows, c, n) == columns[c].len() || exists|i: int|
            0 <= i < n && c < (#[trigger] rows[i]).len() && width(columns, rows, c, n)
                == cell_text(rows[i][c]).len(),
    decreases n,
{
    if n > 0 {
        lemma_width(columns, rows, c, (n - 1) as nat);
    }
}

/// A column is as wide as the widest of its cells and its name, and no wider.
pub proof fn law_column_is_as_wide_as_its_cells(
    columns: Seq<Seq<char>>,
    rows: Seq<Seq<JsonView>>,
    c: int,
)
    requires
        0 <= c < columns.len(),
    ensures
        widths(columns, rows).len() == columns.len(),
        widths(columns, rows)[c] >= columns[c].len(),
        forall|i: int|
            0 <= i < rows.len() && c < (#[trigger] rows[i]).len() ==> widths(columns, rows)[c]
                >= cell_text(rows[i][c]).len(),
        widths(columns, rows)[c] == columns[c].len() || exists|i: int|
            0 <= i < rows.len() && c < (#[trigger] rows[i]).len() && widths(columns, rows)[c]
                == cell_text(rows[i][c]).len(),
{
    lemma_width(columns, rows, c, rows.len());
}

/// Where a column begins in a line.
pub open spec fn column_start(w: Seq<nat>, c: int) -> int
    decreases c,
{
    if c <= 0 {
        0
    } else {
        column_start(w, c - 1) + w[c - 1] + 2
    }
}

proof fn lemma_cells_in_line(cells: Seq<Seq<char>>, w: Seq<nat>, n: int, i: int)
    requires
        0 <= i < n <= cells.len(),
        cells.len() <= w.len(),
        forall|k: int| 0 <= k < cells.len() ==> (#[trigger] cells[k]).len() <= w[k],
    ensures
        ({
            let padded = Seq::new(
                cells.len(),
                |i: int| text::padded_right(cells[i], w[i] as int),
            );
            let full = text::joined(padded.take(n), "  "@);
            full.len() == column_start(w, n) - 2 && text::at(full, cells[i], column_start(w, i))
        }),
    decreases n,
{
    let padded = Seq::new(cells.len(), |i: int| text::padded_right(cells[i], w[i] as int));
    let full = text::joined(padded.take(n), "  "@);
    reveal_strlit("  ");
    assert("  "@.len() == 2);
    let last = padded[n - 1];
    assert(last.len() == w[n - 1]) by {
        assert(cells[n - 1].len() <= w[n - 1]);
    }
    assert(last.subrange(0, cells[n - 1].len() as int) == cells[n - 1]);
    if n == 1 {
        assert(padded.take(1)[0] == last);
        assert(column_start(w, 0) == 0);
    } else {
        let before = text::joined(padded.take(n - 1), "  "@);
        assert(padded.take(n).drop_last() == padded.take(n - 1));
        assert(full == before + "  "@ + last);
        if i < n - 1 {
            lemma_cells_in_line(cells, w, n - 1, i);
            let s = column_start(w, i);
            assert(full.subrange(s, s + cells[i].len()) == before.subrange(s, s + cells[i].len()));
        } else {
            lemma_cells_in_line(cells, w, n - 1, 0);
            let s = column_start(w, i);
            assert(s == before.len() + 2);
            assert(full.subrange(s, s + cells[i].len()) == last.subrange(0, cells[i].len() as int));
        }
    }
}

/// Every cell of a line is shown whole, where its column begins; only blanks at the end of a
/// line are left out.
pub proof fn law_cells_stand_in_columns(cells: Seq<Seq<char>>, w: Seq<nat>)
    requires
        0 < cells.len() <= w.len(),
        forall|k: int| 0 <= k < cells.len() ==> (#[trigger] cells[k]).len() <= w[k],
    ensures
        exists|full: Seq<char>|
            line_text(cells, w) == #[trigger] text::cut_end(full, text::Class::White) + "\n"@
                && full.len() == column_start(w, cells.len() as int) - 2 && forall|i: int|
                0 <= i < cells.len() ==> text::at(full, #[trigger] cells[i], column_start(w, i)),
{
    let padded = Seq::new(cells.len(), |i: int| text::padded_right(cells[i], w[i] as int));
    let n = cells.len() as int;
    assert(padded.take(n) == padded);
    let full = text::joined(padded, "  "@);
    assert forall|i: int| 0 <= i < cells.len() implies text::at(
        full,
        #[trigger] cells[i],
        column_start(w, i),
    ) by {
        lemma_cells_in_line(cells, w, n, i);
    }
    lemma_cells_in_line(cells, w, n, 0);
    assert(line_text(cells, w) == text::cut_end(full, text::Class::White) + "\n"@);
}

/// A cell shows its value whole: text as it is, a number so that it reads back.
pub proof fn law_cell_shows_its_value(v: JsonView)
    ensures
        v matches JsonView::Str(s) ==> cell_text(v) == s,
        v matches JsonView::Int(n) ==> i64::MIN <= n <= i64::MAX ==> text::parsed_int(cell_text(v))
            == Some(n),
        v is Null ==> cell_text(v).len() == 0,
        v == JsonView::Bool(true) ==> cell_text(v) == "true"@,
        v == JsonView::Bool(false) ==> cell_text(v) == "false"@,
        v is Array || v is Object || v is Real ==> cell_text(v) == json::text_of_json(v),
{
    if let JsonView::Int(n) = v {
        if i64::MIN <= n <= i64::MAX {
            text::lemma_int_reads_back(n);
        }
    }
}

proof fn lemma_own_names(columns: Seq<Seq<char>>, row: Seq<JsonView>, n: nat)
    requires
        n <= columns.len(),
        n <= row.len(),
        columns.no_duplicates(),
    ensures
        forall|i: int|
            0 <= i < n ==> row_fields(columns, row, n).contains_key(#[trigger] columns[i])
                && row_fields(columns, row, n)[columns[i]] == row[i],
        forall|k: Seq<char>| #[trigger]
            row_fields(columns, row, n).contains_key(k) ==> columns.take(n as int).contains(k),
    decreases n,
{
    if n > 0 {
        let p = (n - 1) as nat;
        lemma_own_names(columns, row, p);
        let before = row_fields(columns, row, p);
        let column = columns[n - 1];
        assert(!before.contains_key(column)) by {
            if before.contains_key(column) {
                let i = choose|i: int| 0 <= i < p && columns.take(p as int)[i] == column;
                assert(columns[i] == columns[n - 1]);
            }
        }
        assert(names_column(before, column, column));
        let key = column_key(before, column);
        assert(names_column(before, column, key));
        assert(key == column);
        let after = row_fields(columns, row, n);
        assert(after == before.insert(column, row[n - 1]));
        assert forall|k: Seq<char>| #[trigger] after.contains_key(k) implies columns.take(
            n as int,
        ).contains(k) by {
            if k == column {
                assert(columns.take(n as int)[n - 1] == k);
            } else {
                let i = choose|i: int| 0 <= i < p && columns.take(p as int)[i] == k;
                assert(columns.take(n as int)[i] == k);
            }
        }
    }
}

/// Where the columns have names of their own, each row as JSON has under each name the value of
/// that column, and nothing else; and there are as many rows, in their order.
pub proof fn law_values_stand_under_their_names(
    columns: Seq<Seq<char>>,
    rows: Seq<Seq<JsonView>>,
    i: int,
    c: int,
)
    requires
        columns.no_duplicates(),
        0 <= i < rows.len(),
        0 <= c < columns.len(),
        rows[i].len() == columns.len(),
    ensures
        query_value(columns, rows) is Array,
        query_value(columns, rows)->Array_0.len() == rows.len(),
        query_value(columns, rows)->Array_0[i].field(columns[c]) == Some(rows[i][c]),
        forall|k: Seq<char>|
            #[trigger] query_value(columns, rows)->Array_0[i].field(k) is Some ==> columns.contains(
                k,
            ),
{
    lemma_own_names(columns, rows[i], columns.len());
    assert(columns.take(columns.len() as int) == columns);
    let object = query_value(columns, rows)->Array_0[i];
    assert(object == row_object(columns, rows[i]));
    assert(row_fields(columns, rows[i], columns.len()).contains_key(columns[c]));
}

/// The number of rows is said, with a word that goes with it.
pub proof fn law_rows_are_counted(n: nat)
    ensures
        n == 1 ==> count_text(n) == "("@ + text::nat_text(n) + " row)"@,
        n != 1 ==> count_text(n) == "("@ + text::nat_text(n) + " rows)"@,
{
}

/// A column whose name is taken gets the lowest free number from two on behind its name; one
/// whose name is free keeps it.
pub proof fn law_taken_name_is_numbered(
    fields: Map<Seq<char>, JsonView>,
    column: Seq<char>,
    key: Seq<char>,
    k: nat,
)
    requires
        names_column(fields, column, key),
    ensures
        !fields.contains_key(column) ==> key == column,
        !fields.contains_key(key),
        fields.contains_key(column) && k >= 2 && !fields.contains_key(
            column + "_"@ + text::nat_text(k),
        ) && (forall|j: nat|
            2 <= j < k ==> fields.contains_key(column + "_"@ + #[trigger] text::nat_text(j)))
            ==> key == column + "_"@ + text::nat_text(k),
{
    if fields.contains_key(column) {
        let m = choose|m: nat|
            2 <= m && key == #[trigger] numbered_name(column, m) && !fields.contains_key(key) && (
            forall|j: nat| 2 <= j < m ==> fields.contains_key(#[trigger] numbered_name(column, j)));
        if m > k && k >= 2 {
            assert(fields.contains_key(numbered_name(column, k)));
        }
        if m < k {
            let digits = text::nat_text(m);
            assert(key == column + "_"@ + digits);
        }
    }
}

/// The rule under the heading has as many dashes under each column as the column is wide.
pub proof fn law_rule_is_as_wide_as_the_columns(w: Seq<nat>, c: int)
    requires
        0 <= c < w.len(),
    ensures
        rule_text(w).last() == '\n',
        ({
            let runs = text::pieces(rule_text(w).drop_last(), ' ');
            &&& runs.len() == 2 * w.len() - 1
            &&& runs[2 * c].len() == w[c]
            &&& forall|k: int| 0 <= k < w[c] ==> #[trigger] runs[2 * c][k] == '-'
            &&& c < w.len() - 1 ==> runs[2 * c + 1].len() == 0
        }),
{
    reveal_strlit("\n");
    reveal_strlit("  ");
    let parts = w.map_values(|w: nat| text::repeated('-', w as int));
    let line = text::joined(parts, "  "@);
    assert(rule_text(w) == line + "\n"@);
    assert((line + "\n"@).drop_last() == line);
    let runs = Seq::new(
        (2 * w.len() - 1) as nat,
        |i: int|
            if i % 2 == 0 {
                parts[i / 2]
            } else {
                Seq::<char>::empty()
            },
    );
    lemma_double_gap(parts, runs);
    assert forall|i: int| 0 <= i < runs.len() implies !(#[trigger] runs[i]).contains(' ') by {
        if i % 2 == 0 {
            assert(parts[i / 2] == text::repeated('-', w[i / 2] as int));
        }
    }
    text::lemma_pieces_of_joined(runs, ' ');
    assert((2 * c) % 2 == 0 && (2 * c) / 2 == c && (2 * c + 1) % 2 == 1);
    assert(runs[2 * c] == text::repeated('-', w[c] as int));
}

proof fn lemma_double_gap(parts: Seq<Seq<char>>, runs: Seq<Seq<char>>)
    requires
        parts.len() > 0,
        runs == Seq::new(
            (2 * parts.len() - 1) as nat,
            |i: int|
                if i % 2 == 0 {
                    parts[i / 2]
                } else {
                    Seq::<char>::empty()
                },
        ),
    ensures
        text::joined(parts, "  "@) == text::joined(runs, seq![' ']),
    decreases parts.len(),
{
    reveal_strlit("  ");
    if parts.len() == 1 {
        assert(runs == seq![parts[0]]);
    } else {
        let before = parts.drop_last();
        let some = Seq::new(
            (2 * before.len() - 1) as nat,
            |i: int|
                if i % 2 == 0 {
                    before[i / 2]
                } else {
                    Seq::<char>::empty()
                },
        );
        lemma_double_gap(before, some);
        let n = runs.len() as int;
        assert(runs[n - 1] == parts.last());
        assert(runs[n - 2] == Seq::<char>::empty());
        assert(runs.drop_last().drop_last() =~= some);
        let x = text::joined(some, seq![' ']);
        assert(text::joined(runs.drop_last(), seq![' ']) == x + seq![' '] + Seq::<char>::empty());
        assert(x + seq![' '] + Seq::<char>::empty() + seq![' '] + parts.last() == x + "  "@
            + parts.last());
    }
}

} // verus!
