//! The search statement for a filter, and the categories that a new store
//! holds.

use crate::models::email::EmailFilter;
use vstd::prelude::*;
use vstd::string::StringExecFns;

verus! {

/// A value bound to a placeholder of a statement.
#[derive(Debug, Clone, PartialEq, Eq)]
pub enum SqlValue {
    Text(String),
    Flag(bool),
}

/// A statement with placeholders, and the values for them in their order.
#[derive(Debug, Clone)]
pub struct SearchQuery {
    pub sql: String,
    pub params: Vec<SqlValue>,
}

/// A bound value, as the contracts speak of it.
pub enum SqlValueView {
    Text(Seq<char>),
    Flag(bool),
}

/// The bound values, as the contracts speak of them.
pub open spec fn values_of(params: Seq<SqlValue>) -> Seq<SqlValueView> {
    params.map_values(
        |p: SqlValue|
            match p {
                SqlValue::Text(s) => SqlValueView::Text(s@),
                SqlValue::Flag(b) => SqlValueView::Flag(b),
            },
    )
}

/// The statement that selects every record.
pub open spec fn select_all() -> Seq<char> {
    "SELECT id, sender, recipient, subject, body, category, is_read, is_important, created_at, updated_at FROM emails WHERE 1=1"@
}

/// The order of the records found: the newest first.
pub open spec fn newest_first() -> Seq<char> {
    " ORDER BY created_at DESC"@
}

/// `text` where the criterion is set.
pub open spec fn clause(set: bool, text: Seq<char>) -> Seq<char> {
    if set {
        text
    } else {
        Seq::empty()
    }
}

/// The pattern that a text matches which holds `part`.
pub open spec fn holding_pattern(part: Seq<char>) -> Seq<char> {
    "%"@ + part + "%"@
}

/// The statement for `filter`: one condition for each criterion that is
/// set, in the order sender, recipient, category, read, important,
/// keyword.
pub open spec fn search_sql(filter: EmailFilter) -> Seq<char> {
    select_all() + clause(filter.sender is Some, " AND sender LIKE ?"@) + clause(
        filter.recipient is Some,
        " AND recipient LIKE ?"@,
    ) + clause(filter.category is Some, " AND category = ?"@) + clause(
        filter.is_read is Some,
        " AND is_read = ?"@,
    ) + clause(filter.is_important is Some, " AND is_important = ?"@) + clause(
        filter.keyword is Some,
        " AND (subject LIKE ? OR body LIKE ?)"@,
    ) + newest_first()
}

/// The values for the statement of `filter`: for sender and recipient the
/// pattern that holds the text, for the category its name, for the marks
/// their value, and for the keyword its pattern twice.
pub open spec fn search_values(filter: EmailFilter) -> Seq<SqlValueView> {
    (match filter.sender {
        Some(s) => seq![SqlValueView::Text(holding_pattern(s@))],
        None => Seq::empty(),
    }) + (match filter.recipient {
        Some(r) => seq![SqlValueView::Text(holding_pattern(r@))],
        None => Seq::empty(),
    }) + (match filter.category {
        Some(c) => seq![SqlValueView::Text(c@)],
        None => Seq::empty(),
    }) + (match filter.is_read {
        Some(b) => seq![SqlValueView::Flag(b)],
        None => Seq::empty(),
    }) + (match filter.is_important {
        Some(b) => seq![SqlValueView::Flag(b)],
        None => Seq::empty(),
    }) + (match filter.keyword {
        Some(k) => seq![
            SqlValueView::Text(holding_pattern(k@)),
            SqlValueView::Text(holding_pattern(k@)),
        ],
        None => Seq::empty(),
    })
}

/// The pattern that a text matches which holds `part`.
fn pattern_holding(part: &str) -> (pattern: String)
    ensures
        pattern@ == holding_pattern(part@),
{
    let mut pattern = String::from_str("%");
    pattern.append(part);
    pattern.append("%");
    pattern
}

/// The values for a criterion on a text: its pattern, as often as the
/// statement asks.
fn pattern_values(part: &Option<String>, times: usize) -> (values: Vec<SqlValue>)
    requires
        1 <= times <= 2,
    ensures
        values_of(values@) == match *part {
            Some(s) => if times == 1 {
                seq![SqlValueView::Text(holding_pattern(s@))]
            } else {
                seq![
                    SqlValueView::Text(holding_pattern(s@)),
                    SqlValueView::Text(holding_pattern(s@)),
                ]
            },
            None => Seq::empty(),
        },
{
    let mut values: Vec<SqlValue> = Vec::new();
    if let Some(s) = part {
        values.push(SqlValue::Text(pattern_holding(s.as_str())));
        if times == 2 {
            values.push(SqlValue::Text(pattern_holding(s.as_str())));
        }
    }
    assert(values_of(values@) =~= match *part {
        Some(s) => if times == 1 {
            seq![SqlValueView::Text(holding_pattern(s@))]
        } else {
            seq![SqlValueView::Text(holding_pattern(s@)), SqlValueView::Text(holding_pattern(s@))]
        },
        None => Seq::empty(),
    });
    values
}

/// The value for a criterion on a name.
fn name_values(name: &Option<String>) -> (values: Vec<SqlValue>)
    ensures
        values_of(values@) == match *name {
            Some(c) => seq![SqlValueView::Text(c@)],
            None => Seq::empty(),
        },
{
    let mut values: Vec<SqlValue> = Vec::new();
    if let Some(c) = name {
        values.push(SqlValue::Text(c.clone()));
    }
    assert(values_of(values@) =~= match *name {
        Some(c) => seq![SqlValueView::Text(c@)],
        None => Seq::empty(),
    });
    values
}

/// The value for a criterion on a mark.
fn flag_values(flag: Option<bool>) -> (values: Vec<SqlValue>)
    ensures
        values_of(values@) == match flag {
            Some(b) => seq![SqlValueView::Flag(b)],
            None => Seq::empty(),
        },
{
    let mut values: Vec<SqlValue> = Vec::new();
    if let Some(b) = flag {
        values.push(SqlValue::Flag(b));
    }
    assert(values_of(values@) =~= match flag {
        Some(b) => seq![SqlValueView::Flag(b)],
        None => Seq::empty(),
    });
    values
}

/// Appends the values.
fn bind(params: &mut Vec<SqlValue>, values: Vec<SqlValue>)
    ensures
        values_of(final(params)@) == values_of(old(params)@) + values_of(values@),
{
    let mut values = values;
    let ghost added = values@;
    params.append(&mut values);
    assert(values_of(params@) =~= values_of(old(params)@) + values_of(added));
}

/// Appends the condition where the criterion is set.
fn add_clause(sql: &mut String, set: bool, text: &str)
    ensures
        final(sql)@ == old(sql)@ + clause(set, text@),
{
    if set {
        sql.append(text);
    } else {
        assert(sql@ =~= sql@ + Seq::<char>::empty());
    }
}

/// The values that the statement for `filter` takes.
fn search_params(filter: &EmailFilter) -> (params: Vec<SqlValue>)
    ensures
        values_of(params@) == search_values(*filter),
{
    let mut params = pattern_values(&filter.sender, 1);
    bind(&mut params, pattern_values(&filter.recipient, 1));
    bind(&mut params, name_values(&filter.category));
    bind(&mut params, flag_values(filter.is_read));
    bind(&mut params, flag_values(filter.is_important));
    bind(&mut params, pattern_values(&filter.keyword, 2));
    params
}

/// The statement and the values that find the records which `filter`
/// selects.
pub fn search_query(filter: &EmailFilter) -> (query: SearchQuery)
    ensures
        query.sql@ == search_sql(*filter),
        values_of(query.params@) == search_values(*filter),
{
    let mut sql = String::from_str(
        "SELECT id, sender, recipient, subject, body, category, is_read, is_important, created_at, updated_at FROM emails WHERE 1=1",
    );
    add_clause(&mut sql, filter.sender.is_some(), " AND sender LIKE ?");
    add_clause(&mut sql, filter.recipient.is_some(), " AND recipient LIKE ?");
    add_clause(&mut sql, filter.category.is_some(), " AND category = ?");
    add_clause(&mut sql, filter.is_read.is_some(), " AND is_read = ?");
    add_clause(&mut sql, filter.is_important.is_some(), " AND is_important = ?");
    add_clause(&mut sql, filter.keyword.is_some(), " AND (subject LIKE ? OR body LIKE ?)");
    sql.append(" ORDER BY created_at DESC");
    SearchQuery { sql, params: search_params(filter) }
}

/// A category that a new store holds.
#[derive(Debug, Clone, PartialEq, Eq)]
pub struct CategoryPreset {
    pub name: String,
    pub color: String,
    pub description: String,
    pub is_system: bool,
}

impl CategoryPreset {
    /// Whether the preset holds exactly these values.
    pub open spec fn is(
        &self,
        name: Seq<char>,
        color: Seq<char>,
        description: Seq<char>,
        is_system: bool,
    ) -> bool {
        &&& self.name@ == name
        &&& self.color@ == color
        &&& self.description@ == description
        &&& self.is_system == is_system
    }

    fn of(name: &str, color: &str, description: &str, is_system: bool) -> (preset: CategoryPreset)
        ensures
            preset.is(name@, color@, description@, is_system),
    {
        CategoryPreset {
            name: name.to_owned(),
            color: color.to_owned(),
            description: description.to_owned(),
            is_system,
        }
    }
}

/// The categories that a new store holds: four of the system, three of the
/// user's.
pub fn default_categories() -> (presets: Vec<CategoryPreset>)
    ensures
        presets@.len() == 7,
        presets@[0].is("收件箱"@, "#007bff"@, "接收的邮件"@, true),
        presets@[1].is("发件箱"@, "#28a745"@, "发送的邮件"@, true),
        presets@[2].is("草稿箱"@, "#ffc107"@, "草稿邮件"@, true),
        presets@[3].is("垃圾箱"@, "#dc3545"@, "已删除的邮件"@, true),
        presets@[4].is("工作"@, "#6f42c1"@, "工作相关邮件"@, false),
        presets@[5].is("个人"@, "#fd7e14"@, "个人邮件"@, false),
        presets@[6].is("重要"@, "#e83e8c"@, "重要邮件"@, false),
{
    let mut presets: Vec<CategoryPreset> = Vec::new();
    presets.push(CategoryPreset::of("收件箱", "#007bff", "接收的邮件", true));
    presets.push(CategoryPreset::of("发件箱", "#28a745", "发送的邮件", true));
    presets.push(CategoryPreset::of("草稿箱", "#ffc107", "草稿邮件", true));
    presets.push(CategoryPreset::of("垃圾箱", "#dc3545", "已删除的邮件", true));
    presets.push(CategoryPreset::of("工作", "#6f42c1", "工作相关邮件", false));
    presets.push(CategoryPreset::of("个人", "#fd7e14", "个人邮件", false));
    presets.push(CategoryPreset::of("重要", "#e83e8c", "重要邮件", false));
    presets
}

} // verus!
