//! The select queries that read a table: a one-row probe for its columns, then
//! either one query for the whole table or, with a partition column, one query
//! per range of that column's values.

use vstd::prelude::*;
use crate::partition::{ceil_div, lemma_range_at, lemma_ranges_tile, partition_fits, partition_ranges, range_end, range_index, ranges_from};
use crate::text::{join, joined, lemma_joined_append, push_signed_decimal, push_str, signed_decimal, str_equal, views};

verus! {

/// A column of a probed row: its name and the name of its MySQL type.
#[derive(Clone, Debug)]
pub struct ColumnInfo {
    pub name: String,
    pub sql_type: String,
}

/// What to do after the probe query: either the select queries are known, or
/// the minimum and maximum of the partition column must be fetched first.
#[derive(Debug)]
pub enum SelectPlan {
    /// The select queries that read the table.
    Queries(Vec<String>),
    /// Fetch `min_max_query` (one row of two integers), then call
    /// `range_queries` with `select_list`, the two values and the number of
    /// values per range.
    NeedsRange { min_max_query: String, select_list: String },
}

/// A name in backquotes.
pub open spec fn backquoted(name: Seq<char>) -> Seq<char> {
    "`"@ + name + "`"@
}

/// A name in backquotes is the name itself, unchanged, between two backquote
/// characters; so each query names the table, and the partition column, exactly
/// as given.
pub proof fn queries_name_table_as_given(
    select_list: Seq<char>,
    table: Seq<char>,
    column: Seq<char>,
    start: int,
    end: int,
)
    ensures
        backquoted(table).len() == table.len() + 2,
        backquoted(table)[0] == '`',
        backquoted(table).subrange(1, table.len() + 1int) == table,
        backquoted(table)[table.len() + 1int] == '`',
        probe_query_of(table) == "select * from `"@ + table + "` limit 1"@,
        whole_table_query_of(table) == "select * from `"@ + table + "`"@,
        list_query_of(select_list, table) == "select "@ + select_list + " from `"@ + table + "`"@,
        min_max_query_of(column, table) == "select min("@ + column + "), max("@ + column
            + ") from `"@ + table + "`"@,
        range_query_of(select_list, table, column, start, end) == "select "@ + select_list
            + " from `"@ + table + "` where `"@ + column + "` between "@ + signed_decimal(start)
            + " and "@ + signed_decimal(end),
{
    reveal_strlit("`");
    reveal_strlit("select * from `");
    reveal_strlit("select * from ");
    reveal_strlit("` limit 1");
    reveal_strlit(" limit 1");
    reveal_strlit("select ");
    reveal_strlit(" from `");
    reveal_strlit(" from ");
    reveal_strlit("select min(");
    reveal_strlit("), max(");
    reveal_strlit(") from `");
    reveal_strlit(") from ");
    reveal_strlit("` where `");
    reveal_strlit(" where ");
    reveal_strlit("` between ");
    reveal_strlit(" between ");
    let bt = backquoted(table);
    assert(bt.subrange(1, table.len() + 1int) =~= table);
    assert(probe_query_of(table) =~= "select * from `"@ + table + "` limit 1"@);
    assert(whole_table_query_of(table) =~= "select * from `"@ + table + "`"@);
    assert(list_query_of(select_list, table) =~= "select "@ + select_list + " from `"@ + table + "`"@);
    assert(min_max_query_of(column, table) =~= "select min("@ + column + "), max("@ + column
        + ") from `"@ + table + "`"@);
    assert(range_query_of(select_list, table, column, start, end) =~= "select "@ + select_list
        + " from `"@ + table + "` where `"@ + column + "` between "@ + signed_decimal(start)
        + " and "@ + signed_decimal(end));
}

/// How a column is selected: a `GEOMETRY` column as its text form under its
/// own name, any other column by its name.
pub open spec fn select_expression_of(name: Seq<char>, sql_type: Seq<char>) -> Seq<char> {
    if sql_type == "GEOMETRY"@ {
        "ST_AsText("@ + backquoted(name) + ") as "@ + backquoted(name)
    } else {
        backquoted(name)
    }
}

/// The select expressions of the columns, in order.
pub open spec fn select_expressions_of(columns: Seq<ColumnInfo>) -> Seq<Seq<char>> {
    columns.map_values(|c: ColumnInfo| select_expression_of(c.name@, c.sql_type@))
}

/// The select list of the columns: their select expressions joined by `, `.
pub open spec fn select_list_of(columns: Seq<ColumnInfo>) -> Seq<char> {
    joined(select_expressions_of(columns), ", "@)
}

/// The query that fetches at most one row of the table, to learn its columns.
pub open spec fn probe_query_of(table: Seq<char>) -> Seq<char> {
    "select * from "@ + backquoted(table) + " limit 1"@
}

/// The query that reads every column of every row of the table.
pub open spec fn whole_table_query_of(table: Seq<char>) -> Seq<char> {
    "select * from "@ + backquoted(table)
}

/// The query that reads the listed columns of every row of the table.
pub open spec fn list_query_of(select_list: Seq<char>, table: Seq<char>) -> Seq<char> {
    "select "@ + select_list + " from "@ + backquoted(table)
}

/// The query that fetches the minimum and maximum of the partition column.
pub open spec fn min_max_query_of(column: Seq<char>, table: Seq<char>) -> Seq<char> {
    "select min("@ + column + "), max("@ + column + ") from "@ + backquoted(table)
}

/// The query that reads the listed columns of the rows whose partition column
/// lies in `start..=end`.
pub open spec fn range_query_of(
    select_list: Seq<char>,
    table: Seq<char>,
    column: Seq<char>,
    start: int,
    end: int,
) -> Seq<char> {
    list_query_of(select_list, table) + " where "@ + backquoted(column) + " between "@
        + signed_decimal(start) + " and "@ + signed_decimal(end)
}

/// The query for each range of `size` values into which `min..=max` is split.
pub open spec fn range_queries_of(
    select_list: Seq<char>,
    table: Seq<char>,
    column: Seq<char>,
    min: int,
    max: int,
    size: int,
) -> Seq<Seq<char>> {
    ranges_from(min, max, size).map_values(
        |r: (int, int)| range_query_of(select_list, table, column, r.0, r.1),
    )
}

/// The range queries of `min..=max` in steps of `size` values: none when the
/// range is empty, else `ceil_div(max - min + 1, size)` of them, the `k`-th
/// reading the values from `min + k * size` on, `size` of them or up to `max`
/// where that is nearer; so the last one reads up to `max`, whatever the
/// remainder of the division, and every value of `min..=max` is read by the
/// query `range_index(v, min, size)`, that is `(v - min) / size`.
pub proof fn range_queries_cover(
    select_list: Seq<char>,
    table: Seq<char>,
    column: Seq<char>,
    min: int,
    max: int,
    size: int,
)
    requires
        size >= 1,
    ensures
        ({
            let qs = range_queries_of(select_list, table, column, min, max, size);
            &&& max < min ==> qs.len() == 0
            &&& min <= max ==> qs.len() == ceil_div(max - min + 1, size)
            &&& forall|k: int|
                0 <= k < qs.len() ==> #[trigger] qs[k] == range_query_of(
                    select_list,
                    table,
                    column,
                    min + k * size,
                    range_end(min + k * size, max, size),
                )
            &&& min <= max ==> qs[qs.len() - 1] == range_query_of(
                select_list,
                table,
                column,
                min + (qs.len() - 1) * size,
                max,
            )
            &&& forall|v: int|
                min <= v <= max ==> {
                    let k = #[trigger] range_index(v, min, size);
                    &&& 0 <= k < qs.len()
                    &&& min + k * size <= v <= range_end(min + k * size, max, size)
                }
        }),
{
    let rs = ranges_from(min, max, size);
    let qs = range_queries_of(select_list, table, column, min, max, size);
    lemma_ranges_tile(min, max, size);
    assert forall|k: int| 0 <= k < qs.len() implies #[trigger] qs[k] == range_query_of(
        select_list,
        table,
        column,
        min + k * size,
        range_end(min + k * size, max, size),
    ) by {
        lemma_range_at(min, max, size, k);
    }
    if min <= max {
        let last = qs.len() - 1;
        lemma_range_at(min, max, size, last);
        assert(rs[last].1 == max);
    }
    assert forall|v: int| min <= v <= max implies {
        let k = #[trigger] range_index(v, min, size);
        &&& 0 <= k < qs.len()
        &&& min + k * size <= v <= range_end(min + k * size, max, size)
    } by {
        let k = (v - min) / size;
        let n = max - min + 1;
        assert(0 <= k && k * size <= v - min < k * size + size) by (nonlinear_arith)
            requires
                k == (v - min) / size,
                v >= min,
                size >= 1,
        ;
        assert(k < ceil_div(n, size)) by (nonlinear_arith)
            requires
                k == (v - min) / size,
                min <= v <= max,
                n == max - min + 1,
                size >= 1,
        {
            assert((v - min) / size <= n / size) by {
                vstd::arithmetic::div_mod::lemma_div_is_ordered(v - min, n, size);
            }
            if n % size == 0 {
                assert(n == size * (n / size));
                assert(v - min < n);
                assert(k * size <= v - min);
                assert(k * size < size * (n / size));
            }
        }
    }
}

fn push_backquoted(s: &mut String, name: &str)
    ensures
        final(s)@ == old(s)@ + backquoted(name@),
{
    push_str(s, "`");
    push_str(s, name);
    push_str(s, "`");
    assert(s@ =~= old(s)@ + backquoted(name@));
}

/// A `GEOMETRY` column is selected as the text of its value under its own
/// name; any other column by its name alone.
pub proof fn geometry_selected_as_text(name: Seq<char>, sql_type: Seq<char>)
    ensures
        sql_type == "GEOMETRY"@ ==> select_expression_of(name, sql_type) == "ST_AsText(`"@ + name
            + "`) as `"@ + name + "`"@,
        sql_type != "GEOMETRY"@ ==> select_expression_of(name, sql_type) == "`"@ + name + "`"@,
{
    reveal_strlit("`");
    reveal_strlit("ST_AsText(`");
    reveal_strlit("ST_AsText(");
    reveal_strlit("`) as `");
    reveal_strlit(") as ");
    if sql_type == "GEOMETRY"@ {
        assert(select_expression_of(name, sql_type) =~= "ST_AsText(`"@ + name + "`) as `"@ + name
            + "`"@);
    }
}

/// The select list holds the select expression of each column, in order,
/// with `, ` between neighbours: splitting the columns anywhere splits the
/// list at one separator.
pub proof fn select_list_splits(a: Seq<ColumnInfo>, b: Seq<ColumnInfo>)
    requires
        a.len() > 0,
        b.len() > 0,
    ensures
        select_list_of(a + b) == select_list_of(a) + ", "@ + select_list_of(b),
        select_list_of(seq![a[0]]) == select_expression_of(a[0].name@, a[0].sql_type@),
{
    assert(select_expressions_of(a + b) =~= select_expressions_of(a) + select_expressions_of(b));
    lemma_joined_append(select_expressions_of(a), select_expressions_of(b), ", "@);
}

/// The query that fetches at most one row of `table`.
pub fn probe_query(table: &str) -> (r: String)
    ensures
        r@ == probe_query_of(table@),
{
    let mut s = String::new();
    push_str(&mut s, "select * from ");
    push_backquoted(&mut s, table);
    push_str(&mut s, " limit 1");
    assert(s@ =~= probe_query_of(table@));
    s
}

/// How `column` is selected.
pub fn select_expression(column: &ColumnInfo) -> (r: String)
    ensures
        r@ == select_expression_of(column.name@, column.sql_type@),
{
    let mut s = String::new();
    if str_equal(column.sql_type.as_str(), "GEOMETRY") {
        push_str(&mut s, "ST_AsText(");
        push_backquoted(&mut s, column.name.as_str());
        push_str(&mut s, ") as ");
        push_backquoted(&mut s, column.name.as_str());
        assert(s@ =~= select_expression_of(column.name@, column.sql_type@));
    } else {
        push_backquoted(&mut s, column.name.as_str());
        assert(s@ =~= select_expression_of(column.name@, column.sql_type@));
    }
    s
}

/// The select list of `columns`.
pub fn select_list(columns: &Vec<ColumnInfo>) -> (r: String)
    ensures
        r@ == select_list_of(columns@),
{
    let mut expressions: Vec<String> = Vec::new();
    let n = columns.len();
    let mut k: usize = 0;
    while k < n
        invariant
            n == columns@.len(),
            k <= n,
            views(expressions@) =~= select_expressions_of(columns@).subrange(0, k as int),
        decreases n - k,
    {
        let e = select_expression(&columns[k]);
        let ghost before = expressions@;
        expressions.push(e);
        assert(views(expressions@) =~= views(before).push(e@));
        assert(select_expressions_of(columns@)[k as int] == e@);
        assert(select_expressions_of(columns@).subrange(0, k + 1) =~= select_expressions_of(columns@).subrange(0, k as int).push(e@));
        k = k + 1;
    }
    assert(select_expressions_of(columns@).subrange(0, n as int) =~= select_expressions_of(columns@));
    join(&expressions, ", ")
}

/// What to query after the probe of `table`: with no row, the whole table; with
/// a row but no partition column, the listed columns of the whole table; with a
/// partition column, first that column's minimum and maximum.
pub fn plan_select_queries(
    table: &str,
    probe_columns: Option<&Vec<ColumnInfo>>,
    partition_column: Option<&str>,
) -> (r: SelectPlan)
    ensures
        probe_columns is None ==> (r matches SelectPlan::Queries(qs) && views(qs@) == seq![
            whole_table_query_of(table@),
        ]),
        probe_columns matches Some(columns) ==> (partition_column is None ==> (r matches SelectPlan::Queries(qs) && views(qs@) == seq![
            list_query_of(select_list_of(columns@), table@),
        ])),
        probe_columns matches Some(columns) ==> (partition_column matches Some(c) ==> (r matches SelectPlan::NeedsRange { min_max_query, select_list } && min_max_query@ == min_max_query_of(c@, table@) && select_list@ == select_list_of(columns@))),
{
    match probe_columns {
        None => {
            let mut s = String::new();
            push_str(&mut s, "select * from ");
            push_backquoted(&mut s, table);
            let mut qs: Vec<String> = Vec::new();
            qs.push(s);
            assert(views(qs@) =~= seq![whole_table_query_of(table@)]);
            SelectPlan::Queries(qs)
        },
        Some(columns) => {
            let list = select_list(columns);
            match partition_column {
                None => {
                    let mut s = String::new();
                    push_str(&mut s, "select ");
                    push_str(&mut s, list.as_str());
                    push_str(&mut s, " from ");
                    push_backquoted(&mut s, table);
                    let mut qs: Vec<String> = Vec::new();
                    qs.push(s);
                    assert(views(qs@) =~= seq![list_query_of(select_list_of(columns@), table@)]);
                    SelectPlan::Queries(qs)
                },
                Some(c) => {
                    let mut s = String::new();
                    push_str(&mut s, "select min(");
                    push_str(&mut s, c);
                    push_str(&mut s, "), max(");
                    push_str(&mut s, c);
                    push_str(&mut s, ") from ");
                    push_backquoted(&mut s, table);
                    assert(s@ =~= min_max_query_of(c@, table@));
                    SelectPlan::NeedsRange { min_max_query: s, select_list: list }
                },
            }
        },
    }
}

/// The query that reads the listed columns of the rows of `table` whose
/// `column` lies in `start..=end`.
pub fn range_query(select_list: &str, table: &str, column: &str, start: i64, end: i64) -> (r: String)
    ensures
        r@ == range_query_of(select_list@, table@, column@, start as int, end as int),
{
    let mut s = String::new();
    push_str(&mut s, "select ");
    push_str(&mut s, select_list);
    push_str(&mut s, " from ");
    push_backquoted(&mut s, table);
    push_str(&mut s, " where ");
    push_backquoted(&mut s, column);
    push_str(&mut s, " between ");
    push_signed_decimal(&mut s, start);
    push_str(&mut s, " and ");
    push_signed_decimal(&mut s, end);
    assert(s@ =~= range_query_of(select_list@, table@, column@, start as int, end as int));
    s
}

/// One query per range of `partition_size` values into which the values
/// `min..=max` of `column` are split, in increasing order of the ranges.
pub fn range_queries(
    select_list: &str,
    table: &str,
    column: &str,
    min: i64,
    max: i64,
    partition_size: i64,
) -> (r: Vec<String>)
    requires
        partition_fits(min as int, max as int, partition_size as int),
    ensures
        views(r@) == range_queries_of(
            select_list@,
            table@,
            column@,
            min as int,
            max as int,
            partition_size as int,
        ),
{
    let ranges = partition_ranges(min, max, partition_size);
    let ghost spec_ranges = ranges_from(min as int, max as int, partition_size as int);
    let ghost expected = range_queries_of(
        select_list@,
        table@,
        column@,
        min as int,
        max as int,
        partition_size as int,
    );
    let mut queries: Vec<String> = Vec::new();
    let n = ranges.len();
    let mut k: usize = 0;
    while k < n
        invariant
            n == ranges@.len(),
            n == spec_ranges.len(),
            k <= n,
            expected == spec_ranges.map_values(
                |r: (int, int)| range_query_of(select_list@, table@, column@, r.0, r.1),
            ),
            forall|j: int|
                0 <= j < n ==> (#[trigger] ranges@[j]).0 as int == spec_ranges[j].0 && ranges@[j].1 as int
                    == spec_ranges[j].1,
            views(queries@) =~= expected.subrange(0, k as int),
        decreases n - k,
    {
        let (start, end) = ranges[k];
        assert(ranges@[k as int].0 == start);
        let q = range_query(select_list, table, column, start, end);
        let ghost before = queries@;
        queries.push(q);
        assert(views(queries@) =~= views(before).push(q@));
        assert(expected[k as int] == q@);
        assert(expected.subrange(0, k + 1) =~= expected.subrange(0, k as int).push(q@));
        k = k + 1;
    }
    assert(expected.subrange(0, n as int) =~= expected);
    queries
}

} // verus!
