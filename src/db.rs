//! The container handle: what the file header says, where each page lies in
//! the file, and the table-level reads built on the page decoder and the
//! catalog. The handle never touches the file itself: the caller reads the
//! span that `page_span` names and hands the bytes over.
use crate::catalog::{
    lemma_find_absent,
    catalog_spec,
    configs_view,
    find_spec,
    find_table,
    table_configs_from_rows,
    DbTableConfig,
};
use crate::error::DbError;
use crate::record::{be16, decode_leaf_page, leaf_page_spec, rows_view, DataValue, ValueModel};
use vstd::prelude::*;

verus! {

/// Length of the file header at the start of page 1.
pub const FILE_HEADER_LEN: usize = 100;

/// Bytes read when a container is opened: the file header and page 1's page
/// header.
pub const OPEN_HEADER_LEN: usize = 108;

/// Offset of the page size in the file header.
pub const PAGE_SIZE_OFFSET: usize = 16;

/// Offset of the table count in the first bytes of the file.
pub const TABLE_COUNT_OFFSET: usize = 103;

/// Metadata of an opened container.
#[derive(Debug, Clone)]
pub struct Db {
    pub page_size: u16,
    pub num_of_tables: u16,
    pub file_path: String,
}

/// The rows of one decoded page.
#[derive(Debug, Clone, PartialEq, Eq)]
pub struct DbPage {
    pub rows: Vec<Vec<DataValue>>,
}

/// How far into its page a page's buffer begins: page 1's buffer leaves out
/// the file header.
pub open spec fn start_offset_spec(page_number: u16) -> nat {
    if page_number == 1 {
        FILE_HEADER_LEN as nat
    } else {
        0
    }
}

/// File offset and length of the bytes of a page; `None` for page 0, and for
/// page 1 when the page is smaller than the file header.
pub open spec fn span_spec(page_size: u16, page_number: u16) -> Option<(nat, nat)> {
    if page_number == 0 {
        None
    } else if page_number == 1 {
        if page_size < FILE_HEADER_LEN {
            None
        } else {
            Some((FILE_HEADER_LEN as nat, (page_size - FILE_HEADER_LEN) as nat))
        }
    } else {
        Some((((page_number - 1) * page_size) as nat, page_size as nat))
    }
}

/// The rows of a page, given the bytes read for it.
pub open spec fn page_spec(page_size: u16, page_number: u16, bytes: Seq<u8>) -> Result<
    Seq<Seq<ValueModel>>,
    DbError,
> {
    match span_spec(page_size, page_number) {
        None => Err(DbError::Decode),
        Some((_, len)) => if bytes.len() != len {
            Err(DbError::Io)
        } else {
            match leaf_page_spec(bytes, start_offset_spec(page_number)) {
                None => Err(DbError::Decode),
                Some(rows) => Ok(rows),
            }
        },
    }
}

/// The tables that the catalog declares, given the bytes read for page 1.
pub open spec fn tables_spec(page_size: u16, catalog: Seq<u8>) -> Result<
    Seq<(Seq<char>, int)>,
    DbError,
> {
    match page_spec(page_size, 1, catalog) {
        Ok(rows) => Ok(catalog_spec(rows)),
        Err(e) => Err(e),
    }
}

/// The page to read for the table called `name`.
pub open spec fn table_page_spec(page_size: u16, catalog: Seq<u8>, name: Seq<char>) -> Result<
    u16,
    DbError,
> {
    match tables_spec(page_size, catalog) {
        Err(e) => Err(e),
        Ok(tables) => match find_spec(tables, name) {
            None => Err(DbError::NotFound),
            Some(p) => if 1 <= p <= u16::MAX {
                Ok(p as u16)
            } else {
                Err(DbError::Decode)
            },
        },
    }
}

/// A lookup of a name that no catalog entry has fails with `NotFound`, and
/// names no page to read.
pub proof fn lemma_missing_table_not_found(page_size: u16, catalog: Seq<u8>, name: Seq<char>)
    requires
        tables_spec(page_size, catalog) is Ok,
        forall|i: int|
            0 <= i < tables_spec(page_size, catalog)->Ok_0.len() ==> (#[trigger] tables_spec(
                page_size,
                catalog,
            )->Ok_0[i]).0 != name,
    ensures
        table_page_spec(page_size, catalog, name) == Err::<u16, DbError>(DbError::NotFound),
{
    lemma_find_absent(tables_spec(page_size, catalog)->Ok_0, name);
}

impl Db {
    /// Opens a container from the first bytes of its file: the page size and
    /// the declared table count are read from them. Fails with `Io` when fewer
    /// than `OPEN_HEADER_LEN` bytes could be read.
    pub fn new(file_path: &str, header: &[u8]) -> (r: Result<Db, DbError>)
        ensures
            r is Ok <==> header@.len() >= OPEN_HEADER_LEN,
            r is Err ==> r == Err::<Db, DbError>(DbError::Io),
            r matches Ok(db) ==> db.page_size == be16(header@, PAGE_SIZE_OFFSET as nat)
                && db.num_of_tables == be16(header@, TABLE_COUNT_OFFSET as nat)
                && db.file_path@ == file_path@,
    {
        if header.len() < OPEN_HEADER_LEN {
            return Err(DbError::Io);
        }
        let page_size = (header[PAGE_SIZE_OFFSET] as u16) * 256 + header[PAGE_SIZE_OFFSET
            + 1] as u16;
        let num_of_tables = (header[TABLE_COUNT_OFFSET] as u16) * 256 + header[TABLE_COUNT_OFFSET
            + 1] as u16;
        Ok(Db { page_size, num_of_tables, file_path: file_path.to_owned() })
    }

    /// The page size and the declared table count.
    pub fn info(&self) -> (r: (u16, u16))
        ensures
            r == (self.page_size, self.num_of_tables),
    {
        (self.page_size, self.num_of_tables)
    }

    /// File offset and length of the bytes to read for a page.
    pub fn page_span(&self, page_number: u16) -> (r: Result<(u64, usize), DbError>)
        ensures
            r is Ok <==> span_spec(self.page_size, page_number) is Some,
            r is Err ==> r == Err::<(u64, usize), DbError>(DbError::Decode),
            r matches Ok((off, len)) ==> span_spec(self.page_size, page_number) == Some(
                (off as nat, len as nat),
            ),
    {
        if page_number == 0 {
            Err(DbError::Decode)
        } else if page_number == 1 {
            if (self.page_size as usize) < FILE_HEADER_LEN {
                Err(DbError::Decode)
            } else {
                Ok((FILE_HEADER_LEN as u64, self.page_size as usize - FILE_HEADER_LEN))
            }
        } else {
            let index = (page_number - 1) as u64;
            let size = self.page_size as u64;
            assert(index * size <= 0xffff * 0xffff) by (nonlinear_arith)
                requires
                    index <= 0xffff,
                    size <= 0xffff,
            ;
            Ok((index * size, self.page_size as usize))
        }
    }

    /// Decodes the bytes read for a page as a leaf table page. Fails with `Io`
    /// when they are not as many as `page_span` asks for.
    pub fn get_page(&self, page_number: u16, bytes: &[u8]) -> (r: Result<DbPage, DbError>)
        ensures
            match r {
                Ok(page) => page_spec(self.page_size, page_number, bytes@) == Ok::<
                    Seq<Seq<ValueModel>>,
                    DbError,
                >(rows_view(page.rows@)),
                Err(e) => page_spec(self.page_size, page_number, bytes@) == Err::<
                    Seq<Seq<ValueModel>>,
                    DbError,
                >(e),
            },
    {
        let len = match self.page_span(page_number) {
            Ok((_, len)) => len,
            Err(e) => {
                return Err(e);
            },
        };
        if bytes.len() != len {
            return Err(DbError::Io);
        }
        let start = if page_number == 1 {
            FILE_HEADER_LEN
        } else {
            0
        };
        match decode_leaf_page(bytes, start) {
            Ok(rows) => Ok(DbPage { rows }),
            Err(e) => Err(e),
        }
    }

    /// The tables that the catalog declares, in catalog order, given the
    /// bytes read for page 1.
    pub fn get_table_configs(&self, catalog: &[u8]) -> (r: Result<Vec<DbTableConfig>, DbError>)
        ensures
            match r {
                Ok(cs) => tables_spec(self.page_size, catalog@) == Ok::<
                    Seq<(Seq<char>, int)>,
                    DbError,
                >(configs_view(cs@)),
                Err(e) => tables_spec(self.page_size, catalog@) == Err::<
                    Seq<(Seq<char>, int)>,
                    DbError,
                >(e),
            },
    {
        match self.get_page(1, catalog) {
            Ok(page) => Ok(table_configs_from_rows(&page.rows)),
            Err(e) => Err(e),
        }
    }

    /// The names of the tables that the catalog declares, in catalog order.
    pub fn get_table_names(&self, catalog: &[u8]) -> (r: Result<Vec<String>, DbError>)
        ensures
            match r {
                Ok(names) => tables_spec(self.page_size, catalog@) matches Ok(t) && names@.map_values(
                    |s: String| s@,
                ) == t.map_values(|e: (Seq<char>, int)| e.0),
                Err(e) => tables_spec(self.page_size, catalog@) == Err::<
                    Seq<(Seq<char>, int)>,
                    DbError,
                >(e),
            },
    {
        let configs = match self.get_table_configs(catalog) {
            Ok(cs) => cs,
            Err(e) => {
                return Err(e);
            },
        };
        let ghost t = configs_view(configs@);
        let mut names: Vec<String> = Vec::new();
        let mut i: usize = 0;
        while i < configs.len()
            invariant
                i <= configs@.len(),
                t == configs_view(configs@),
                names@.map_values(|s: String| s@) == t.take(i as int).map_values(
                    |e: (Seq<char>, int)| e.0,
                ),
            decreases configs.len() - i,
        {
            let ghost old_names = names@;
            names.push(configs[i].table_name.clone());
            assert(names@.map_values(|s: String| s@) =~= old_names.map_values(|s: String| s@).push(
                t[i as int].0,
            ));
            assert(t.take(i + 1).map_values(|e: (Seq<char>, int)| e.0) =~= t.take(i as int).map_values(
                |e: (Seq<char>, int)| e.0,
            ).push(t[i as int].0));
            i = i + 1;
        }
        assert(t.take(configs@.len() as int) =~= t);
        Ok(names)
    }

    /// The page that holds the rows of the table called `table_name` (exact,
    /// case-sensitive match; the first such entry wins). Fails with `NotFound`
    /// when the catalog declares no such table, and with `Decode` when its
    /// root page number is not a page number.
    pub fn get_table_page(&self, catalog: &[u8], table_name: &str) -> (r: Result<u16, DbError>)
        ensures
            r == table_page_spec(self.page_size, catalog@, table_name@),
    {
        let configs = match self.get_table_configs(catalog) {
            Ok(cs) => cs,
            Err(e) => {
                return Err(e);
            },
        };
        match find_table(&configs, table_name) {
            None => Err(DbError::NotFound),
            Some(p) => {
                if 1 <= p && p <= u16::MAX as i64 {
                    Ok(p as u16)
                } else {
                    Err(DbError::Decode)
                }
            },
        }
    }
}

} // verus!
