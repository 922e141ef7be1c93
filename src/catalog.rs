//! The schema catalog: which rows of page 1 name a table, and where its rows
//! are stored.
use crate::record::{row_view, rows_view, DataValue, ValueModel};
use vstd::prelude::*;

verus! {

/// A table that the catalog declares: its name and the page that holds its rows.
#[derive(Debug, Clone, PartialEq, Eq)]
pub struct DbTableConfig {
    pub table_name: String,
    pub page_number: i64,
}

/// Column of a catalog row that holds the table's name.
pub const NAME_COLUMN: usize = 2;

/// Column of a catalog row that holds the table's root page number.
pub const PAGE_COLUMN: usize = 3;

/// A catalog entry as its name and root page number.
pub open spec fn config_view(c: DbTableConfig) -> (Seq<char>, int) {
    (c.table_name@, c.page_number as int)
}

pub open spec fn configs_view(cs: Seq<DbTableConfig>) -> Seq<(Seq<char>, int)> {
    cs.map_values(|c: DbTableConfig| config_view(c))
}

/// The name column of a catalog row; empty when it is missing or not text.
pub open spec fn row_name(row: Seq<ValueModel>) -> Seq<char> {
    if row.len() > NAME_COLUMN {
        match row[NAME_COLUMN as int] {
            ValueModel::Text(s) => s,
            _ => seq![],
        }
    } else {
        seq![]
    }
}

/// The root page column of a catalog row; zero when it is missing or not an
/// integer.
pub open spec fn row_page(row: Seq<ValueModel>) -> int {
    if row.len() > PAGE_COLUMN {
        match row[PAGE_COLUMN as int] {
            ValueModel::Int(v) => v,
            _ => 0,
        }
    } else {
        0
    }
}

/// The table a catalog row declares, if it has a name and a root page.
pub open spec fn entry_of(row: Seq<ValueModel>) -> Option<(Seq<char>, int)> {
    if row_name(row).len() == 0 || row_page(row) == 0 {
        None
    } else {
        Some((row_name(row), row_page(row)))
    }
}

/// The tables that the catalog rows declare, in row order.
pub open spec fn catalog_spec(rows: Seq<Seq<ValueModel>>) -> Seq<(Seq<char>, int)>
    decreases rows.len(),
{
    if rows.len() == 0 {
        seq![]
    } else {
        let prev = catalog_spec(rows.drop_last());
        match entry_of(rows.last()) {
            Some(e) => prev.push(e),
            None => prev,
        }
    }
}

/// Root page of the first table called `name`.
pub open spec fn find_spec(entries: Seq<(Seq<char>, int)>, name: Seq<char>) -> Option<int>
    decreases entries.len(),
{
    if entries.len() == 0 {
        None
    } else if entries[0].0 == name {
        Some(entries[0].1)
    } else {
        find_spec(entries.drop_first(), name)
    }
}

/// No catalog row with an empty name or a zero root page yields an entry:
/// every entry has a non-empty name and a non-zero root page.
pub proof fn lemma_catalog_entries_named(rows: Seq<Seq<ValueModel>>)
    ensures
        forall|i: int|
            0 <= i < catalog_spec(rows).len() ==> catalog_spec(rows)[i].0.len() > 0
                && catalog_spec(rows)[i].1 != 0,
    decreases rows.len(),
{
    if rows.len() > 0 {
        let prev = catalog_spec(rows.drop_last());
        lemma_catalog_entries_named(rows.drop_last());
        if let Some(e) = entry_of(rows.last()) {
            assert forall|i: int| 0 <= i < prev.push(e).len() implies prev.push(e)[i].0.len() > 0
                && prev.push(e)[i].1 != 0 by {
                if i < prev.len() {
                    assert(prev.push(e)[i] == prev[i]);
                }
            }
        }
    }
}

/// No entry is found under a name that no entry has.
pub proof fn lemma_find_absent(entries: Seq<(Seq<char>, int)>, name: Seq<char>)
    requires
        forall|i: int| 0 <= i < entries.len() ==> (#[trigger] entries[i]).0 != name,
    ensures
        find_spec(entries, name) is None,
    decreases entries.len(),
{
    if entries.len() > 0 {
        let rest = entries.drop_first();
        assert forall|i: int| 0 <= i < rest.len() implies (#[trigger] rest[i]).0 != name by {
            assert(rest[i] == entries[i + 1]);
        }
        lemma_find_absent(rest, name);
    }
}

/// The tables that decoded catalog rows declare, in row order.
pub fn table_configs_from_rows(rows: &Vec<Vec<DataValue>>) -> (r: Vec<DbTableConfig>)
    ensures
        configs_view(r@) == catalog_spec(rows_view(rows@)),
{
    let mut configs: Vec<DbTableConfig> = Vec::new();
    let mut i: usize = 0;
    assert(rows_view(rows@).take(0) =~= Seq::<Seq<ValueModel>>::empty());
    assert(configs_view(configs@) =~= Seq::<(Seq<char>, int)>::empty());
    while i < rows.len()
        invariant
            i <= rows@.len(),
            configs_view(configs@) == catalog_spec(rows_view(rows@).take(i as int)),
        decreases rows.len() - i,
    {
        let row = &rows[i];
        let ghost rv = row_view(row@);
        let table_name = if row.len() > NAME_COLUMN {
            match &row[NAME_COLUMN] {
                DataValue::Text(s) => s.clone(),
                _ => String::new(),
            }
        } else {
            String::new()
        };
        let page_number: i64 = if row.len() > PAGE_COLUMN {
            match &row[PAGE_COLUMN] {
                DataValue::Int(v) => *v,
                _ => 0,
            }
        } else {
            0
        };
        assert(table_name@ == row_name(rv));
        assert(page_number == row_page(rv));
        let ghost prefix = rows_view(rows@).take(i as int);
        assert(rows_view(rows@).take(i + 1).drop_last() =~= prefix);
        assert(rows_view(rows@).take(i + 1).last() == rv);
        if !table_name.as_str().is_empty() && page_number != 0 {
            let ghost old_configs = configs@;
            let config = DbTableConfig { table_name, page_number };
            configs.push(config);
            assert(configs_view(configs@) =~= configs_view(old_configs).push(config_view(config)));
        }
        i = i + 1;
    }
    assert(rows_view(rows@).take(rows@.len() as int) =~= rows_view(rows@));
    configs
}

/// Root page of the first entry called `name`, if there is one.
pub fn find_table(configs: &Vec<DbTableConfig>, name: &str) -> (r: Option<i64>)
    ensures
        r matches Some(p) ==> find_spec(configs_view(configs@), name@) == Some(p as int),
        r is None ==> find_spec(configs_view(configs@), name@) is None,
{
    let target = name.to_owned();
    let ghost all = configs_view(configs@);
    let mut i: usize = 0;
    assert(all.subrange(0, all.len() as int) =~= all);
    while i < configs.len()
        invariant
            i <= configs@.len(),
            all == configs_view(configs@),
            target@ == name@,
            find_spec(all.subrange(i as int, all.len() as int), name@) == find_spec(all, name@),
        decreases configs.len() - i,
    {
        let ghost rest = all.subrange(i as int, all.len() as int);
        assert(rest[0] == config_view(configs@[i as int]));
        if configs[i].table_name == target {
            return Some(configs[i].page_number);
        }
        assert(rest.drop_first() =~= all.subrange(i + 1, all.len() as int));
        i = i + 1;
    }
    None
}

} // verus!
