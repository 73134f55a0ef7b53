//! Conversion of one fetched row into a JSON record for Redshift: each column
//! is decoded according to its MySQL type, null values are left out, binary
//! values are not supported by Redshift's JSON loading and are left out too,
//! and keys are the lower-case column names.

use vstd::prelude::*;
use crate::calendar::{date_text, date_time_text, format_date, format_date_time, format_time, fraction_text, fraction_width, is_valid_date, is_valid_time, lemma_fraction_shape, time_text};
use crate::query::ColumnInfo;
use crate::text::{ascii_lower, ascii_lower_char, has_no_ascii_upper, push_str, str_equal, to_ascii_lowercase};

verus! {

/// How the values of a column are read, by the name of its MySQL type.
#[derive(PartialEq, Eq, Structural, Clone, Copy, Debug)]
pub enum ColumnKind {
    /// `BOOLEAN`, read as a `bool`.
    Boolean,
    /// `TINYINT`, `SMALLINT`, `MEDIUMINT`, `INT`, `BIGINT`, read as an `i64`.
    SignedInteger,
    /// The same types `UNSIGNED`, read as a `u64`.
    UnsignedInteger,
    /// `FLOAT`, read as an `f32`.
    Float,
    /// `DOUBLE`, read as an `f64`.
    Double,
    /// `DATE`, read as a calendar date.
    Date,
    /// `TIME`, read as a time of day.
    Time,
    /// `DATETIME`, read as a date and time.
    DateTime,
    /// `TIMESTAMP`, read as a date and time in UTC.
    Timestamp,
    /// `CHAR`, `VARCHAR`, `ENUM`, `TINYTEXT`, `TEXT`, `MEDIUMTEXT`, `LONGTEXT`,
    /// read as a string.
    Text,
    /// `JSON`, read as a JSON value and written as the text of that value.
    Json,
    /// `BINARY`, `VARBINARY`, `TINYBLOB`, `BLOB`, `MEDIUMBLOB`, `LONGBLOB`:
    /// not read.
    Binary,
    /// `GEOMETRY`: must have been selected as text with `ST_AsText`.
    Geometry,
}

/// The kind of a column by the name of its MySQL type; `None` for a type that
/// is not supported.
pub open spec fn kind_of(sql_type: Seq<char>) -> Option<ColumnKind> {
    if sql_type == "BOOLEAN"@ {
        Some(ColumnKind::Boolean)
    } else if sql_type == "TINYINT"@ || sql_type == "SMALLINT"@ || sql_type == "MEDIUMINT"@
        || sql_type == "INT"@ || sql_type == "BIGINT"@ {
        Some(ColumnKind::SignedInteger)
    } else if sql_type == "TINYINT UNSIGNED"@ || sql_type == "SMALLINT UNSIGNED"@ || sql_type
        == "MEDIUMINT UNSIGNED"@ || sql_type == "INT UNSIGNED"@ || sql_type == "BIGINT UNSIGNED"@ {
        Some(ColumnKind::UnsignedInteger)
    } else if sql_type == "FLOAT"@ {
        Some(ColumnKind::Float)
    } else if sql_type == "DOUBLE"@ {
        Some(ColumnKind::Double)
    } else if sql_type == "DATE"@ {
        Some(ColumnKind::Date)
    } else if sql_type == "TIME"@ {
        Some(ColumnKind::Time)
    } else if sql_type == "DATETIME"@ {
        Some(ColumnKind::DateTime)
    } else if sql_type == "TIMESTAMP"@ {
        Some(ColumnKind::Timestamp)
    } else if sql_type == "CHAR"@ || sql_type == "VARCHAR"@ || sql_type == "ENUM"@ || sql_type
        == "TINYTEXT"@ || sql_type == "TEXT"@ || sql_type == "MEDIUMTEXT"@ || sql_type
        == "LONGTEXT"@ {
        Some(ColumnKind::Text)
    } else if sql_type == "JSON"@ {
        Some(ColumnKind::Json)
    } else if sql_type == "BINARY"@ || sql_type == "VARBINARY"@ || sql_type == "TINYBLOB"@
        || sql_type == "BLOB"@ || sql_type == "MEDIUMBLOB"@ || sql_type == "LONGBLOB"@ {
        Some(ColumnKind::Binary)
    } else if sql_type == "GEOMETRY"@ {
        Some(ColumnKind::Geometry)
    } else {
        None
    }
}

fn is_any(t: &str, a: &str, b: &str, c: &str, d: &str, e: &str) -> (r: bool)
    ensures
        r == (t@ == a@ || t@ == b@ || t@ == c@ || t@ == d@ || t@ == e@),
{
    str_equal(t, a) || str_equal(t, b) || str_equal(t, c) || str_equal(t, d) || str_equal(t, e)
}

/// The kind of a column by the name of its MySQL type.
pub fn column_kind(sql_type: &str) -> (r: Option<ColumnKind>)
    ensures
        r == kind_of(sql_type@),
{
    let t = sql_type;
    if str_equal(t, "BOOLEAN") {
        Some(ColumnKind::Boolean)
    } else if is_any(t, "TINYINT", "SMALLINT", "MEDIUMINT", "INT", "BIGINT") {
        Some(ColumnKind::SignedInteger)
    } else if is_any(
        t,
        "TINYINT UNSIGNED",
        "SMALLINT UNSIGNED",
        "MEDIUMINT UNSIGNED",
        "INT UNSIGNED",
        "BIGINT UNSIGNED",
    ) {
        Some(ColumnKind::UnsignedInteger)
    } else if str_equal(t, "FLOAT") {
        Some(ColumnKind::Float)
    } else if str_equal(t, "DOUBLE") {
        Some(ColumnKind::Double)
    } else if str_equal(t, "DATE") {
        Some(ColumnKind::Date)
    } else if str_equal(t, "TIME") {
        Some(ColumnKind::Time)
    } else if str_equal(t, "DATETIME") {
        Some(ColumnKind::DateTime)
    } else if str_equal(t, "TIMESTAMP") {
        Some(ColumnKind::Timestamp)
    } else if is_any(t, "CHAR", "VARCHAR", "ENUM", "TINYTEXT", "TEXT") || str_equal(t, "MEDIUMTEXT")
        || str_equal(t, "LONGTEXT") {
        Some(ColumnKind::Text)
    } else if str_equal(t, "JSON") {
        Some(ColumnKind::Json)
    } else if is_any(t, "BINARY", "VARBINARY", "TINYBLOB", "BLOB", "MEDIUMBLOB") || str_equal(t, "LONGBLOB") {
        Some(ColumnKind::Binary)
    } else if str_equal(t, "GEOMETRY") {
        Some(ColumnKind::Geometry)
    } else {
        None
    }
}

/// A value as it was read from a column of a row, by the column's kind.
#[derive(Clone, Debug, PartialEq, Eq)]
pub enum Cell {
    /// SQL `NULL`.
    Null,
    Bool(bool),
    Int(i64),
    UInt(u64),
    /// An `f32`, by its bits.
    Float32Bits(u32),
    /// An `f64`, by its bits.
    Float64Bits(u64),
    Date { year: i32, month: u32, day: u32 },
    /// A time of day; `nano` of one second or more marks a leap second.
    Time { hour: u32, minute: u32, second: u32, nano: u32 },
    DateTime { year: i32, month: u32, day: u32, hour: u32, minute: u32, second: u32, nano: u32 },
    /// A string, or the text of a JSON value.
    Text(String),
    /// Nothing could be read (a binary column, which is not read, or a value
    /// that did not decode).
    Unread,
}

/// A value of the JSON record.
#[derive(Clone, Debug, PartialEq, Eq)]
pub enum FieldValue {
    Bool(bool),
    Int(i64),
    UInt(u64),
    /// A JSON number from an `f32`, by its bits.
    Float32Bits(u32),
    /// A JSON number from an `f64`, by its bits.
    Float64Bits(u64),
    /// A JSON string.
    Text(String),
}

/// The mathematical value of a `FieldValue`.
pub enum FieldView {
    Bool(bool),
    Int(i64),
    UInt(u64),
    Float32Bits(u32),
    Float64Bits(u64),
    Text(Seq<char>),
}

impl View for FieldValue {
    type V = FieldView;

    open spec fn view(&self) -> FieldView {
        match self {
            FieldValue::Bool(b) => FieldView::Bool(*b),
            FieldValue::Int(i) => FieldView::Int(*i),
            FieldValue::UInt(u) => FieldView::UInt(*u),
            FieldValue::Float32Bits(b) => FieldView::Float32Bits(*b),
            FieldValue::Float64Bits(b) => FieldView::Float64Bits(*b),
            FieldValue::Text(t) => FieldView::Text(t@),
        }
    }
}

/// The JSON value of a read cell of a column of the given kind: `Err` when the
/// cell is not a value of that kind (it did not decode), `Ok(None)` when the
/// value is left out of the record (`NULL`, or a binary column), else the value.
/// Dates and times become their chrono texts, JSON values their text.
pub open spec fn field_of(kind: ColumnKind, cell: Cell) -> Result<Option<FieldView>, ()> {
    match (kind, cell) {
        (ColumnKind::Binary, _) => Ok(None),
        (ColumnKind::Geometry, _) => Err(()),
        (_, Cell::Null) => Ok(None),
        (ColumnKind::Boolean, Cell::Bool(b)) => Ok(Some(FieldView::Bool(b))),
        (ColumnKind::SignedInteger, Cell::Int(i)) => Ok(Some(FieldView::Int(i))),
        (ColumnKind::UnsignedInteger, Cell::UInt(u)) => Ok(Some(FieldView::UInt(u))),
        (ColumnKind::Float, Cell::Float32Bits(b)) => Ok(Some(FieldView::Float32Bits(b))),
        (ColumnKind::Double, Cell::Float64Bits(b)) => Ok(Some(FieldView::Float64Bits(b))),
        (ColumnKind::Date, Cell::Date { year, month, day }) => if is_valid_date(
            year as int,
            month as int,
            day as int,
        ) {
            Ok(Some(FieldView::Text(date_text(year as int, month as int, day as int))))
        } else {
            Err(())
        },
        (ColumnKind::Time, Cell::Time { hour, minute, second, nano }) => if is_valid_time(
            hour as int,
            minute as int,
            second as int,
            nano as int,
        ) {
            Ok(
                Some(
                    FieldView::Text(time_text(hour as int, minute as int, second as int, nano as int)),
                ),
            )
        } else {
            Err(())
        },
        (ColumnKind::DateTime, Cell::DateTime { year, month, day, hour, minute, second, nano })
        | (
            ColumnKind::Timestamp,
            Cell::DateTime { year, month, day, hour, minute, second, nano },
        ) => if is_valid_date(year as int, month as int, day as int) && is_valid_time(
            hour as int,
            minute as int,
            second as int,
            nano as int,
        ) {
            Ok(
                Some(
                    FieldView::Text(
                        date_time_text(
                            year as int,
                            month as int,
                            day as int,
                            hour as int,
                            minute as int,
                            second as int,
                            nano as int,
                        ),
                    ),
                ),
            )
        } else {
            Err(())
        },
        (ColumnKind::Text, Cell::Text(t)) => Ok(Some(FieldView::Text(t@))),
        (ColumnKind::Json, Cell::Text(t)) => Ok(Some(FieldView::Text(t@))),
        _ => Err(()),
    }
}

/// The JSON value of a read cell of a column of the given kind, as `field_of`
/// says.
pub fn field_value(kind: ColumnKind, cell: &Cell) -> (r: Result<Option<FieldValue>, ()>)
    requires
        kind != ColumnKind::Geometry,
    ensures
        r matches Ok(Some(v)) ==> field_of(kind, *cell) == Ok::<Option<FieldView>, ()>(Some(v@)),
        r matches Ok(None) ==> field_of(kind, *cell) == Ok::<Option<FieldView>, ()>(None),
        r is Err ==> field_of(kind, *cell) is Err,
{
    match (kind, cell) {
        (ColumnKind::Binary, _) => Ok(None),
        (_, Cell::Null) => Ok(None),
        (ColumnKind::Boolean, Cell::Bool(b)) => Ok(Some(FieldValue::Bool(*b))),
        (ColumnKind::SignedInteger, Cell::Int(i)) => Ok(Some(FieldValue::Int(*i))),
        (ColumnKind::UnsignedInteger, Cell::UInt(u)) => Ok(Some(FieldValue::UInt(*u))),
        (ColumnKind::Float, Cell::Float32Bits(b)) => Ok(Some(FieldValue::Float32Bits(*b))),
        (ColumnKind::Double, Cell::Float64Bits(b)) => Ok(Some(FieldValue::Float64Bits(*b))),
        (ColumnKind::Date, Cell::Date { year, month, day }) => match format_date(*year, *month, *day) {
            Some(t) => Ok(Some(FieldValue::Text(t))),
            None => Err(()),
        },
        (ColumnKind::Time, Cell::Time { hour, minute, second, nano }) => match format_time(
            *hour,
            *minute,
            *second,
            *nano,
        ) {
            Some(t) => Ok(Some(FieldValue::Text(t))),
            None => Err(()),
        },
        (ColumnKind::DateTime, Cell::DateTime { year, month, day, hour, minute, second, nano })
        | (
            ColumnKind::Timestamp,
            Cell::DateTime { year, month, day, hour, minute, second, nano },
        ) => match format_date_time(*year, *month, *day, *hour, *minute, *second, *nano) {
            Some(t) => Ok(Some(FieldValue::Text(t))),
            None => Err(()),
        },
        (ColumnKind::Text, Cell::Text(t)) => Ok(Some(FieldValue::Text(t.clone()))),
        (ColumnKind::Json, Cell::Text(t)) => Ok(Some(FieldValue::Text(t.clone()))),
        _ => Err(()),
    }
}

/// The map of a list of named values; a later value replaces an earlier one of
/// the same name.
pub open spec fn map_of(fields: Seq<(String, FieldValue)>) -> Map<Seq<char>, FieldView>
    decreases fields.len(),
{
    if fields.len() == 0 {
        Map::empty()
    } else {
        map_of(fields.drop_last()).insert(fields.last().0@, fields.last().1@)
    }
}

/// Whether no two of the named values share a name.
pub open spec fn names_distinct(fields: Seq<(String, FieldValue)>) -> bool {
    forall|i: int, j: int|
        0 <= i < j < fields.len() ==> (#[trigger] fields[i]).0@ != (#[trigger] fields[j]).0@
}

/// Lemma: the map of a list holds exactly its names, each with its value when
/// the names are distinct.
pub proof fn lemma_map_of(fields: Seq<(String, FieldValue)>)
    ensures
        forall|name: Seq<char>|
            #![trigger map_of(fields).contains_key(name)]
            map_of(fields).contains_key(name) <==> exists|k: int|
                0 <= k < fields.len() && (#[trigger] fields[k]).0@ == name,
        names_distinct(fields) ==> forall|k: int|
            0 <= k < fields.len() ==> map_of(fields)[(#[trigger] fields[k]).0@] == fields[k].1@,
    decreases fields.len(),
{
    if fields.len() > 0 {
        let init = fields.drop_last();
        lemma_map_of(init);
        assert forall|name: Seq<char>| map_of(fields).contains_key(name) <==> exists|k: int|
            0 <= k < fields.len() && (#[trigger] fields[k]).0@ == name by {
            if map_of(init).contains_key(name) {
                let k = choose|k: int| 0 <= k < init.len() && (#[trigger] init[k]).0@ == name;
                assert(fields[k] == init[k]);
            }
            if exists|k: int| 0 <= k < fields.len() && (#[trigger] fields[k]).0@ == name {
                let k = choose|k: int| 0 <= k < fields.len() && (#[trigger] fields[k]).0@ == name;
                if k < fields.len() - 1 {
                    assert(init[k] == fields[k]);
                }
            }
        }
        if names_distinct(fields) {
            assert forall|k: int| 0 <= k < fields.len() implies map_of(fields)[(#[trigger] fields[k]).0@]
                == fields[k].1@ by {
                if k < fields.len() - 1 {
                    assert(init[k] == fields[k]);
                    assert(names_distinct(init)) by {
                        assert forall|i: int, j: int| 0 <= i < j < init.len() implies (#[trigger] init[i]).0@
                            != (#[trigger] init[j]).0@ by {
                            assert(init[i] == fields[i] && init[j] == fields[j]);
                        }
                    }
                }
            }
        }
    }
}

/// Lemma: replacing the value at `k` replaces the value of its name in the map,
/// when the names are distinct.
pub proof fn lemma_map_of_update(fields: Seq<(String, FieldValue)>, k: int, value: FieldValue)
    requires
        names_distinct(fields),
        0 <= k < fields.len(),
    ensures
        map_of(fields.update(k, (fields[k].0, value))) == map_of(fields).insert(fields[k].0@, value@),
    decreases fields.len(),
{
    let updated = fields.update(k, (fields[k].0, value));
    let init = fields.drop_last();
    lemma_map_of(init);
    if k == fields.len() - 1 {
        assert(updated.drop_last() =~= init);
        assert(!map_of(init).contains_key(fields[k].0@)) by {
            if map_of(init).contains_key(fields[k].0@) {
                let j = choose|j: int| 0 <= j < init.len() && (#[trigger] init[j]).0@ == fields[k].0@;
                assert(fields[j] == init[j]);
            }
        }
        assert(map_of(updated) =~= map_of(fields).insert(fields[k].0@, value@));
    } else {
        assert(names_distinct(init)) by {
            assert forall|i: int, j: int| 0 <= i < j < init.len() implies (#[trigger] init[i]).0@
                != (#[trigger] init[j]).0@ by {
                assert(init[i] == fields[i] && init[j] == fields[j]);
            }
        }
        lemma_map_of_update(init, k, value);
        assert(updated.drop_last() =~= init.update(k, (init[k].0, value)));
        assert(fields[k].0@ != fields.last().0@);
        assert(map_of(updated) =~= map_of(fields).insert(fields[k].0@, value@));
    }
}

/// A JSON record: values by key, each key at most once.
#[derive(Debug)]
pub struct Record {
    fields: Vec<(String, FieldValue)>,
}

impl Record {
    #[verifier::type_invariant]
    spec fn keys_distinct(&self) -> bool {
        names_distinct(self.fields@)
    }

    /// The values of the record by key.
    pub closed spec fn view(&self) -> Map<Seq<char>, FieldView> {
        map_of(self.fields@)
    }

    /// An empty record.
    pub fn new() -> (r: Record)
        ensures
            r.view() == Map::<Seq<char>, FieldView>::empty(),
    {
        Record { fields: Vec::new() }
    }

    /// Sets the value of `key`, replacing the value it had.
    pub fn insert(&mut self, key: String, value: FieldValue)
        ensures
            final(self).view() == old(self).view().insert(key@, value@),
    {
        proof {
            use_type_invariant(&*self);
            lemma_map_of(self.fields@);
        }
        let n = self.fields.len();
        let mut k: usize = 0;
        while k < n
            invariant
                n == self.fields@.len(),
                k <= n,
                *self == *old(self),
                names_distinct(self.fields@),
                forall|j: int| 0 <= j < k ==> (#[trigger] self.fields@[j]).0@ != key@,
            decreases n - k,
        {
            if str_equal(self.fields[k].0.as_str(), key.as_str()) {
                let ghost before = self.fields@;
                proof {
                    use_type_invariant(&*self);
                    lemma_map_of_update(before, k as int, value);
                }
                let name = self.fields[k].0.clone();
                let mut fields = Vec::new();
                std::mem::swap(&mut fields, &mut self.fields);
                fields.set(k, (name, value));
                assert(fields@ =~= before.update(k as int, (before[k as int].0, value)));
                assert(names_distinct(fields@)) by {
                    assert forall|i: int, j: int| 0 <= i < j < fields@.len() implies (#[trigger] fields@[i]).0@
                        != (#[trigger] fields@[j]).0@ by {
                        assert(before[i].0@ != before[j].0@);
                    }
                }
                self.fields = fields;
                return;
            }
            k = k + 1;
        }
        let ghost before = self.fields@;
        proof {
            lemma_map_of(before);
        }
        let mut fields = Vec::new();
        std::mem::swap(&mut fields, &mut self.fields);
        fields.push((key, value));
        assert(fields@.drop_last() =~= before);
        assert(names_distinct(fields@)) by {
            assert forall|i: int, j: int| 0 <= i < j < fields@.len() implies (#[trigger] fields@[i]).0@
                != (#[trigger] fields@[j]).0@ by {
                if j < before.len() {
                    assert(before[i].0@ != before[j].0@);
                } else {
                    assert(fields@[i] == before[i]);
                }
            }
        }
        self.fields = fields;
    }

    /// The number of keys of the record.
    pub fn len(&self) -> (r: usize)
        ensures
            r == self.view().len(),
    {
        proof {
            use_type_invariant(self);
            lemma_map_len(self.fields@);
        }
        self.fields.len()
    }

    /// The value of `key`, if the record has it.
    pub fn get(&self, key: &str) -> (r: Option<&FieldValue>)
        ensures
            r is Some <==> self.view().contains_key(key@),
            r matches Some(v) ==> v@ == self.view()[key@],
    {
        proof {
            use_type_invariant(self);
            lemma_map_of(self.fields@);
        }
        let n = self.fields.len();
        let mut k: usize = 0;
        while k < n
            invariant
                n == self.fields@.len(),
                k <= n,
                names_distinct(self.fields@),
                forall|j: int| 0 <= j < k ==> (#[trigger] self.fields@[j]).0@ != key@,
            decreases n - k,
        {
            if str_equal(self.fields[k].0.as_str(), key) {
                proof {
                    lemma_map_of(self.fields@);
                }
                return Some(&self.fields[k].1);
            }
            k = k + 1;
        }
        proof {
            lemma_map_of(self.fields@);
        }
        None
    }

    /// The keys and values of the record, each key once.
    pub fn into_fields(self) -> (r: Vec<(String, FieldValue)>)
        ensures
            names_distinct(r@),
            map_of(r@) == self.view(),
    {
        proof {
            use_type_invariant(&self);
        }
        self.fields
    }
}

/// Lemma: with distinct names the map of a list has as many keys as the list
/// has entries.
pub proof fn lemma_map_len(fields: Seq<(String, FieldValue)>)
    requires
        names_distinct(fields),
    ensures
        map_of(fields).len() == fields.len(),
        map_of(fields).dom().finite(),
    decreases fields.len(),
{
    if fields.len() > 0 {
        let init = fields.drop_last();
        assert(names_distinct(init)) by {
            assert forall|i: int, j: int| 0 <= i < j < init.len() implies (#[trigger] init[i]).0@
                != (#[trigger] init[j]).0@ by {
                assert(init[i] == fields[i] && init[j] == fields[j]);
            }
        }
        lemma_map_len(init);
        lemma_map_of(init);
        assert(!map_of(init).contains_key(fields.last().0@)) by {
            if map_of(init).contains_key(fields.last().0@) {
                let j = choose|j: int| 0 <= j < init.len() && (#[trigger] init[j]).0@ == fields.last().0@;
                assert(fields[j] == init[j]);
            }
        }
    }
}

/// A column of a fetched row: its name, the name of its MySQL type, and the
/// value read from it according to `column_kind` of that type.
#[derive(Clone, Debug)]
pub struct Column {
    pub name: String,
    pub sql_type: String,
    pub cell: Cell,
}

/// Why a row does not convert, by the position of the column.
pub enum RowFailure {
    /// The column's MySQL type is not supported.
    Unsupported(int),
    /// The column's value did not decode as a value of its kind.
    Undecodable(int),
}

/// Why a row does not convert.
#[derive(Clone, Debug, PartialEq, Eq)]
pub enum ToJsonError {
    /// The column `column` has the unsupported MySQL type `sql_type`.
    UnsupportedType { column: String, sql_type: String },
    /// The value of the column `column` did not decode.
    Undecodable { column: String },
}

/// What one column contributes to the record.
pub enum ColumnStep {
    /// The column's MySQL type is not supported.
    Unsupported,
    /// The column's value did not decode.
    Undecodable,
    /// The column adds nothing (a `NULL` or a binary value).
    Skip,
    /// The column sets the value of the key.
    Assign(Seq<char>, FieldView),
}

/// What a column contributes: its value under its lower-case name, nothing,
/// or the reason it does not convert.
pub open spec fn column_step(c: Column) -> ColumnStep {
    match kind_of(c.sql_type@) {
        None => ColumnStep::Unsupported,
        Some(kind) => match field_of(kind, c.cell) {
            Err(_) => ColumnStep::Undecodable,
            Ok(None) => ColumnStep::Skip,
            Ok(Some(v)) => ColumnStep::Assign(ascii_lower(c.name@), v),
        },
    }
}

/// The record of the first `n` columns, converted left to right: a column of an
/// unsupported type, or whose value did not decode, stops the conversion; a
/// value left out adds nothing; any other value is set under the lower-case
/// column name, replacing an earlier value of that key.
pub open spec fn record_of_prefix(columns: Seq<Column>, n: int) -> Result<Map<Seq<char>, FieldView>, RowFailure>
    decreases n,
{
    if n <= 0 {
        Ok(Map::empty())
    } else {
        match record_of_prefix(columns, n - 1) {
            Err(e) => Err(e),
            Ok(m) => match column_step(columns[n - 1]) {
                ColumnStep::Unsupported => Err(RowFailure::Unsupported(n - 1)),
                ColumnStep::Undecodable => Err(RowFailure::Undecodable(n - 1)),
                ColumnStep::Skip => Ok(m),
                ColumnStep::Assign(key, v) => Ok(m.insert(key, v)),
            },
        }
    }
}

/// Lemma: once a prefix of the row fails, the whole row fails the same way.
pub proof fn lemma_failure_persists(columns: Seq<Column>, m: int, n: int)
    requires
        0 <= m <= n,
        record_of_prefix(columns, m) is Err,
    ensures
        record_of_prefix(columns, n) == record_of_prefix(columns, m),
    decreases n - m,
{
    if m < n {
        lemma_failure_persists(columns, m, n - 1);
    }
}

/// The record of a row.
pub open spec fn record_of(columns: Seq<Column>) -> Result<Map<Seq<char>, FieldView>, RowFailure> {
    record_of_prefix(columns, columns.len() as int)
}

/// Whether converting the row reaches a `GEOMETRY` column, which should have
/// been selected as text: every column before it converts.
pub open spec fn reaches_geometry(columns: Seq<Column>) -> bool {
    exists|i: int|
        0 <= i < columns.len() && kind_of((#[trigger] columns[i]).sql_type@) == Some(
            ColumnKind::Geometry,
        ) && record_of_prefix(columns, i) is Ok
}

impl ToJsonError {
    /// The message that explains the error.
    pub fn message(&self) -> (r: String)
        ensures
            self matches ToJsonError::UnsupportedType { column, sql_type } ==> r@
                == "Unsupported MySQL data type is found in "@ + column@ + " column: "@ + sql_type@,
            self matches ToJsonError::Undecodable { column } ==> r@
                == "failed to deserialize row data of "@ + column@ + " column"@,
    {
        let mut s = String::new();
        match self {
            ToJsonError::UnsupportedType { column, sql_type } => {
                push_str(&mut s, "Unsupported MySQL data type is found in ");
                push_str(&mut s, column.as_str());
                push_str(&mut s, " column: ");
                push_str(&mut s, sql_type.as_str());
            },
            ToJsonError::Undecodable { column } => {
                push_str(&mut s, "failed to deserialize row data of ");
                push_str(&mut s, column.as_str());
                push_str(&mut s, " column");
            },
        }
        s
    }
}

/// What `column` contributes to the record, as `column_step` says; `column`
/// is not a `GEOMETRY` column.
pub fn convert_column(column: &Column) -> (r: Result<Option<(String, FieldValue)>, ToJsonError>)
    requires
        kind_of(column.sql_type@) != Some(ColumnKind::Geometry),
    ensures
        r matches Ok(Some(kv)) ==> column_step(*column) == ColumnStep::Assign(kv.0@, kv.1@),
        r matches Ok(None) ==> column_step(*column) == ColumnStep::Skip,
        r matches Err(ToJsonError::UnsupportedType { column: name, sql_type }) ==> column_step(*column)
            == ColumnStep::Unsupported && name@ == column.name@ && sql_type@ == column.sql_type@,
        r matches Err(ToJsonError::Undecodable { column: name }) ==> column_step(*column)
            == ColumnStep::Undecodable && name@ == column.name@,
{
    match column_kind(column.sql_type.as_str()) {
        None => Err(
            ToJsonError::UnsupportedType {
                column: column.name.clone(),
                sql_type: column.sql_type.clone(),
            },
        ),
        Some(kind) => match field_value(kind, &column.cell) {
            Err(_) => Err(ToJsonError::Undecodable { column: column.name.clone() }),
            Ok(None) => Ok(None),
            Ok(Some(v)) => Ok(Some((to_ascii_lowercase(column.name.as_str()), v))),
        },
    }
}

/// The JSON record of a fetched row, as `record_of` says; an error names the
/// first column that does not convert.
pub fn to_json(columns: &Vec<Column>) -> (r: Result<Record, ToJsonError>)
    requires
        !reaches_geometry(columns@),
    ensures
        r matches Ok(rec) ==> record_of(columns@) == Ok::<Map<Seq<char>, FieldView>, RowFailure>(rec.view()),
        r matches Err(ToJsonError::UnsupportedType { column, sql_type }) ==> exists|i: int|
            0 <= i < columns@.len() && record_of(columns@) == Err::<Map<Seq<char>, FieldView>, RowFailure>(
                RowFailure::Unsupported(i),
            ) && column@ == columns@[i].name@ && sql_type@ == columns@[i].sql_type@,
        r matches Err(ToJsonError::Undecodable { column }) ==> exists|i: int|
            0 <= i < columns@.len() && record_of(columns@) == Err::<Map<Seq<char>, FieldView>, RowFailure>(
                RowFailure::Undecodable(i),
            ) && column@ == columns@[i].name@,
{
    let mut record = Record::new();
    let n = columns.len();
    let mut k: usize = 0;
    while k < n
        invariant
            n == columns@.len(),
            k <= n,
            !reaches_geometry(columns@),
            record_of_prefix(columns@, k as int) == Ok::<Map<Seq<char>, FieldView>, RowFailure>(record.view()),
        decreases n - k,
    {
        let column = &columns[k];
        assert(columns@[k as int] == *column);
        if let Some(kind) = column_kind(column.sql_type.as_str()) {
            if kind == ColumnKind::Geometry {
                assert(reaches_geometry(columns@));
            }
        }
        let step = convert_column(column);
        match step {
            Err(e) => {
                proof {
                    lemma_failure_persists(columns@, k + 1, n as int);
                }
                return Err(e);
            },
            Ok(None) => {},
            Ok(Some((key, v))) => {
                record.insert(key, v);
            },
        }
        k = k + 1;
    }
    Ok(record)
}

/// Whether the column sets a value under `key`.
pub open spec fn assigns(c: Column, key: Seq<char>) -> bool {
    column_step(c) matches ColumnStep::Assign(k, _) && k == key
}

/// Lemma: a converted prefix holds a key exactly when one of its columns sets
/// it, with the value of the last such column.
pub proof fn lemma_prefix_keys(columns: Seq<Column>, n: int)
    requires
        0 <= n <= columns.len(),
        record_of_prefix(columns, n) is Ok,
    ensures
        forall|key: Seq<char>|
            #![trigger record_of_prefix(columns, n)->Ok_0.contains_key(key)]
            record_of_prefix(columns, n)->Ok_0.contains_key(key) <==> exists|i: int|
                0 <= i < n && #[trigger] assigns(columns[i], key),
        forall|i: int, key: Seq<char>|
            0 <= i < n && #[trigger] assigns(columns[i], key) && (forall|j: int|
                i < j < n ==> !#[trigger] assigns(columns[j], key)) ==> record_of_prefix(
                columns,
                n,
            )->Ok_0[key] == column_step(columns[i])->Assign_1,
    decreases n,
{
    if n > 0 {
        lemma_prefix_keys(columns, n - 1);
        let m = record_of_prefix(columns, n - 1)->Ok_0;
        let c = columns[n - 1];
        assert forall|key: Seq<char>| record_of_prefix(columns, n)->Ok_0.contains_key(key) <==> exists|i: int|
            0 <= i < n && #[trigger] assigns(columns[i], key) by {
            if m.contains_key(key) {
                let i = choose|i: int| 0 <= i < n - 1 && #[trigger] assigns(columns[i], key);
            }
            if assigns(c, key) {
                assert(assigns(columns[n - 1], key));
            }
            if exists|i: int| 0 <= i < n && #[trigger] assigns(columns[i], key) {
                let i = choose|i: int| 0 <= i < n && #[trigger] assigns(columns[i], key);
                if i < n - 1 {
                    assert(m.contains_key(key));
                }
            }
        }
        assert forall|i: int, key: Seq<char>|
            0 <= i < n && #[trigger] assigns(columns[i], key) && (forall|j: int|
                i < j < n ==> !#[trigger] assigns(columns[j], key)) implies record_of_prefix(
            columns,
            n,
        )->Ok_0[key] == column_step(columns[i])->Assign_1 by {
            if i < n - 1 {
                assert(!assigns(columns[n - 1], key));
                assert forall|j: int| i < j < n - 1 implies !#[trigger] assigns(columns[j], key) by {}
            }
        }
    }
}

/// Lemma: the lower-case form of a text holds no upper-case ASCII letter.
pub proof fn lemma_ascii_lower_has_no_upper(s: Seq<char>)
    ensures
        has_no_ascii_upper(ascii_lower(s)),
{
    assert forall|k: int| 0 <= k < ascii_lower(s).len() implies !('A' <= #[trigger] ascii_lower(s)[k] && ascii_lower(s)[k] <= 'Z') by {
        assert(ascii_lower(s)[k] == ascii_lower_char(s[k]));
    }
}

/// The keys of a converted row are exactly the lower-case names of its
/// columns that give a value (neither `NULL` nor binary), each with the value
/// of the last such column of that name; no key holds an upper-case ASCII
/// letter.
pub proof fn record_keys(columns: Seq<Column>)
    requires
        record_of(columns) is Ok,
    ensures
        forall|key: Seq<char>|
            #![trigger record_of(columns)->Ok_0.contains_key(key)]
            record_of(columns)->Ok_0.contains_key(key) <==> exists|i: int|
                0 <= i < columns.len() && #[trigger] assigns(columns[i], key),
        forall|i: int, key: Seq<char>|
            0 <= i < columns.len() && #[trigger] assigns(columns[i], key) && (forall|j: int|
                i < j < columns.len() ==> !#[trigger] assigns(columns[j], key)) ==> record_of(
                columns,
            )->Ok_0[key] == column_step(columns[i])->Assign_1,
        forall|key: Seq<char>|
            #[trigger] record_of(columns)->Ok_0.contains_key(key) ==> has_no_ascii_upper(key),
{
    lemma_prefix_keys(columns, columns.len() as int);
    assert forall|key: Seq<char>| #[trigger] record_of(columns)->Ok_0.contains_key(key) implies has_no_ascii_upper(key) by {
        let i = choose|i: int| 0 <= i < columns.len() && #[trigger] assigns(columns[i], key);
        lemma_ascii_lower_has_no_upper(columns[i].name@);
    }
}

/// A column gives no value to the record when its value is `NULL` or its type
/// is binary, and sets the value of its lower-case name otherwise (when it
/// converts).
pub proof fn column_step_omits_null_and_binary(c: Column)
    requires
        kind_of(c.sql_type@) is Some,
        kind_of(c.sql_type@) != Some(ColumnKind::Geometry),
    ensures
        (c.cell is Null || kind_of(c.sql_type@) == Some(ColumnKind::Binary)) ==> column_step(c)
            == ColumnStep::Skip,
        column_step(c) matches ColumnStep::Assign(key, _) ==> key == ascii_lower(c.name@) && !(
        c.cell is Null),
{
}

/// A column of a supported type gives no value exactly when its value is
/// `NULL` or its type is binary; every other value it holds, zero, `false`
/// and the empty text included, is set unchanged under its lower-case name.
pub proof fn column_step_keeps_every_value(c: Column)
    requires
        kind_of(c.sql_type@) is Some,
        kind_of(c.sql_type@) != Some(ColumnKind::Geometry),
    ensures
        column_step(c) is Skip <==> (c.cell is Null || kind_of(c.sql_type@) == Some(
            ColumnKind::Binary,
        )),
        c.cell matches Cell::Bool(b) ==> (kind_of(c.sql_type@) == Some(ColumnKind::Boolean)
            ==> column_step(c) == ColumnStep::Assign(ascii_lower(c.name@), FieldView::Bool(b))),
        c.cell matches Cell::Int(i) ==> (kind_of(c.sql_type@) == Some(ColumnKind::SignedInteger)
            ==> column_step(c) == ColumnStep::Assign(ascii_lower(c.name@), FieldView::Int(i))),
        c.cell matches Cell::UInt(u) ==> (kind_of(c.sql_type@) == Some(
            ColumnKind::UnsignedInteger,
        ) ==> column_step(c) == ColumnStep::Assign(ascii_lower(c.name@), FieldView::UInt(u))),
        c.cell matches Cell::Float32Bits(b) ==> (kind_of(c.sql_type@) == Some(ColumnKind::Float)
            ==> column_step(c) == ColumnStep::Assign(
            ascii_lower(c.name@),
            FieldView::Float32Bits(b),
        )),
        c.cell matches Cell::Float64Bits(b) ==> (kind_of(c.sql_type@) == Some(ColumnKind::Double)
            ==> column_step(c) == ColumnStep::Assign(
            ascii_lower(c.name@),
            FieldView::Float64Bits(b),
        )),
        c.cell matches Cell::Text(t) ==> (kind_of(c.sql_type@) == Some(ColumnKind::Text)
            || kind_of(c.sql_type@) == Some(ColumnKind::Json) ==> column_step(c)
            == ColumnStep::Assign(ascii_lower(c.name@), FieldView::Text(t@))),
        c.cell matches Cell::Date { year, month, day } ==> (kind_of(c.sql_type@) == Some(
            ColumnKind::Date,
        ) ==> column_step(c) == if is_valid_date(year as int, month as int, day as int) {
            ColumnStep::Assign(
                ascii_lower(c.name@),
                FieldView::Text(date_text(year as int, month as int, day as int)),
            )
        } else {
            ColumnStep::Undecodable
        }),
        c.cell matches Cell::Time { hour, minute, second, nano } ==> (kind_of(c.sql_type@) == Some(
            ColumnKind::Time,
        ) ==> column_step(c) == if is_valid_time(
            hour as int,
            minute as int,
            second as int,
            nano as int,
        ) {
            ColumnStep::Assign(
                ascii_lower(c.name@),
                FieldView::Text(time_text(hour as int, minute as int, second as int, nano as int)),
            )
        } else {
            ColumnStep::Undecodable
        }),
        c.cell matches Cell::DateTime { year, month, day, hour, minute, second, nano } ==> (
        kind_of(c.sql_type@) == Some(ColumnKind::DateTime) || kind_of(c.sql_type@) == Some(
            ColumnKind::Timestamp,
        ) ==> column_step(c) == if is_valid_date(year as int, month as int, day as int)
            && is_valid_time(hour as int, minute as int, second as int, nano as int) {
            ColumnStep::Assign(
                ascii_lower(c.name@),
                FieldView::Text(
                    date_time_text(
                        year as int,
                        month as int,
                        day as int,
                        hour as int,
                        minute as int,
                        second as int,
                        nano as int,
                    ),
                ),
            )
        } else {
            ColumnStep::Undecodable
        }),
{
}

/// In a converted row, each column whose value is neither `NULL` nor binary
/// puts a value under its lower-case name; the value of the last such column
/// of that name is the one the record holds.
pub proof fn record_holds_each_value(columns: Seq<Column>, i: int)
    requires
        record_of(columns) is Ok,
        0 <= i < columns.len(),
        !(columns[i].cell is Null),
        kind_of(columns[i].sql_type@) != Some(ColumnKind::Binary),
    ensures
        record_of(columns)->Ok_0.contains_key(ascii_lower(columns[i].name@)),
        column_step(columns[i]) is Assign,
        (forall|j: int|
            i < j < columns.len() ==> !#[trigger] assigns(columns[j], ascii_lower(columns[i].name@)))
            ==> record_of(columns)->Ok_0[ascii_lower(columns[i].name@)] == column_step(
            columns[i],
        )->Assign_1,
{
    record_fails_at_first_column(columns);
    assert(converts(columns[i]));
    let c = columns[i];
    assert(kind_of(c.sql_type@) is Some);
    assert(kind_of(c.sql_type@) != Some(ColumnKind::Geometry));
    column_step_keeps_every_value(c);
    let key = ascii_lower(c.name@);
    assert(assigns(columns[i], key));
    record_keys(columns);
}

/// Whether a column converts: it adds a value or nothing, but does not stop
/// the row.
pub open spec fn converts(c: Column) -> bool {
    column_step(c) is Skip || column_step(c) is Assign
}

/// Lemma: a prefix of the row converts exactly when each of its columns does,
/// and otherwise fails at its first column that does not.
pub proof fn lemma_prefix_failure(columns: Seq<Column>, n: int)
    requires
        0 <= n <= columns.len(),
    ensures
        record_of_prefix(columns, n) is Ok <==> forall|j: int| 0 <= j < n ==> #[trigger] converts(columns[j]),
        record_of_prefix(columns, n) matches Err(RowFailure::Unsupported(i)) ==> 0 <= i < n,
        record_of_prefix(columns, n) matches Err(RowFailure::Undecodable(i)) ==> 0 <= i < n,
        forall|i: int|
            0 <= i < n ==> (record_of_prefix(columns, n) == Err::<Map<Seq<char>, FieldView>, RowFailure>(
                RowFailure::Unsupported(i),
            ) <==> (#[trigger] column_step(columns[i]) is Unsupported && forall|j: int|
                0 <= j < i ==> #[trigger] converts(columns[j]))),
        forall|i: int|
            0 <= i < n ==> (record_of_prefix(columns, n) == Err::<Map<Seq<char>, FieldView>, RowFailure>(
                RowFailure::Undecodable(i),
            ) <==> (#[trigger] column_step(columns[i]) is Undecodable && forall|j: int|
                0 <= j < i ==> #[trigger] converts(columns[j]))),
    decreases n,
{
    if n > 0 {
        lemma_prefix_failure(columns, n - 1);
        if record_of_prefix(columns, n - 1) is Err {
            let j = choose|j: int| 0 <= j < n - 1 && !#[trigger] converts(columns[j]);
        } else if converts(columns[n - 1]) {
            assert forall|j: int| 0 <= j < n implies #[trigger] converts(columns[j]) by {
                if j < n - 1 {
                }
            }
        } else {
            assert(!converts(columns[n - 1]));
        }
    }
}

/// A row converts exactly when each of its columns does; otherwise the
/// conversion fails at its first column that does not, for the reason of that
/// column (an unsupported type, or a value that did not decode), whatever the
/// columns after it hold.
pub proof fn record_fails_at_first_column(columns: Seq<Column>)
    ensures
        record_of(columns) is Ok <==> forall|j: int| 0 <= j < columns.len() ==> #[trigger] converts(columns[j]),
        forall|i: int|
            0 <= i < columns.len() ==> (record_of(columns) == Err::<Map<Seq<char>, FieldView>, RowFailure>(
                RowFailure::Unsupported(i),
            ) <==> (#[trigger] column_step(columns[i]) is Unsupported && forall|j: int|
                0 <= j < i ==> #[trigger] converts(columns[j]))),
        forall|i: int|
            0 <= i < columns.len() ==> (record_of(columns) == Err::<Map<Seq<char>, FieldView>, RowFailure>(
                RowFailure::Undecodable(i),
            ) <==> (#[trigger] column_step(columns[i]) is Undecodable && forall|j: int|
                0 <= j < i ==> #[trigger] converts(columns[j]))),
        forall|rest: Seq<Column>, i: int|
            0 <= i < columns.len() && !converts(columns[i]) && (forall|j: int|
                0 <= j < i ==> #[trigger] converts(columns[j])) ==> #[trigger] record_of(
                columns.subrange(0, i + 1) + rest,
            ) == record_of(columns),
{
    lemma_prefix_failure(columns, columns.len() as int);
    assert forall|rest: Seq<Column>, i: int|
        0 <= i < columns.len() && !converts(columns[i]) && (forall|j: int|
            0 <= j < i ==> #[trigger] converts(columns[j])) implies #[trigger] record_of(
        columns.subrange(0, i + 1) + rest,
    ) == record_of(columns) by {
        let other = columns.subrange(0, i + 1) + rest;
        lemma_same_prefix(columns, other, i + 1);
        lemma_prefix_failure(columns, i + 1);
        lemma_prefix_failure(other, other.len() as int);
        lemma_failure_persists(columns, i + 1, columns.len() as int);
        lemma_failure_persists(other, i + 1, other.len() as int);
    }
}

/// Lemma: rows that agree on their first `n` columns convert those columns
/// alike.
pub proof fn lemma_same_prefix(a: Seq<Column>, b: Seq<Column>, n: int)
    requires
        0 <= n <= a.len(),
        n <= b.len(),
        forall|k: int| 0 <= k < n ==> a[k] == b[k],
    ensures
        record_of_prefix(a, n) == record_of_prefix(b, n),
    decreases n,
{
    if n > 0 {
        lemma_same_prefix(a, b, n - 1);
        assert(a[n - 1] == b[n - 1]);
    }
}

/// The nanosecond part of a time or date-and-time cell.
pub open spec fn cell_nano(cell: Cell) -> Option<u32> {
    match cell {
        Cell::Time { nano, .. } => Some(nano),
        Cell::DateTime { nano, .. } => Some(nano),
        _ => None,
    }
}

/// In a converted row, the value of a key set by a `TIME`, `DATETIME` or
/// `TIMESTAMP` column (the last column that sets it) is a text that ends in the
/// `%.f` fraction of its second: nothing for a whole second, else a dot and 3,
/// 6 or 9 digits, the fewest that show the fraction exactly.
pub proof fn time_values_end_in_fraction(columns: Seq<Column>, i: int, key: Seq<char>)
    requires
        record_of(columns) is Ok,
        0 <= i < columns.len(),
        assigns(columns[i], key),
        forall|j: int| i < j < columns.len() ==> !#[trigger] assigns(columns[j], key),
        cell_nano(columns[i].cell) is Some,
    ensures
        ({
            let nano = (cell_nano(columns[i].cell)->0 % 1_000_000_000) as nat;
            let f = fraction_text(nano);
            &&& record_of(columns)->Ok_0[key] matches FieldView::Text(t) && t.len() >= f.len()
                && t.subrange(t.len() - f.len(), t.len() as int) == f
            &&& f.len() == fraction_width(nano)
            &&& nano != 0 ==> f[0] == '.'
            &&& forall|k: int| 1 <= k < f.len() ==> '0' <= #[trigger] f[k] <= '9'
        }),
{
    record_keys(columns);
    let c = columns[i];
    let nano = (cell_nano(c.cell)->0 % 1_000_000_000) as nat;
    let f = fraction_text(nano);
    lemma_fraction_shape(nano);
    let v = column_step(c)->Assign_1;
    assert(record_of(columns)->Ok_0[key] == v);
    match c.cell {
        Cell::Time { hour, minute, second, nano: n } => {
            let t = time_text(hour as int, minute as int, second as int, n as int);
            assert(v == FieldView::Text(t));
            assert(t.subrange(t.len() - f.len(), t.len() as int) =~= f);
        },
        Cell::DateTime { year, month, day, hour, minute, second, nano: n } => {
            let t = time_text(hour as int, minute as int, second as int, n as int);
            let dt = date_time_text(
                year as int,
                month as int,
                day as int,
                hour as int,
                minute as int,
                second as int,
                n as int,
            );
            assert(v == FieldView::Text(dt));
            assert(dt.subrange(dt.len() - f.len(), dt.len() as int) =~= f);
        },
        _ => {},
    }
}

/// Lemma: only the type name `GEOMETRY` is of the `GEOMETRY` kind.
pub proof fn lemma_geometry_kind(sql_type: Seq<char>)
    ensures
        kind_of(sql_type) == Some(ColumnKind::Geometry) ==> sql_type == "GEOMETRY"@,
{
}

/// A row read by the select list of the probed columns never reaches a
/// `GEOMETRY` column, so `to_json` takes it: given that the database returns
/// the probed columns in order under their names, each with its own type,
/// except that the `ST_AsText` text of a `GEOMETRY` column comes back as a
/// column of a text type.
pub proof fn selected_rows_hold_no_geometry(probe: Seq<ColumnInfo>, row: Seq<Column>)
    requires
        row.len() == probe.len(),
        forall|i: int|
            0 <= i < row.len() ==> {
                &&& (#[trigger] row[i]).name@ == probe[i].name@
                &&& probe[i].sql_type@ == "GEOMETRY"@ ==> kind_of(row[i].sql_type@) == Some(ColumnKind::Text)
                &&& probe[i].sql_type@ != "GEOMETRY"@ ==> row[i].sql_type@ == probe[i].sql_type@
            },
    ensures
        forall|i: int| 0 <= i < row.len() ==> kind_of((#[trigger] row[i]).sql_type@) != Some(ColumnKind::Geometry),
        !reaches_geometry(row),
{
    assert forall|i: int| 0 <= i < row.len() implies kind_of((#[trigger] row[i]).sql_type@) != Some(ColumnKind::Geometry) by {
        lemma_geometry_kind(row[i].sql_type@);
    }
}

} // verus!
