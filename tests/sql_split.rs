use sqlite_decode::sql::{
    create_table, lift_create_table, lift_select, parse, select, Sql, SqlCreateTable, SqlError,
    SqlSelect,
};

const CREATE_TABLE: &[u8] = b"CREATE TABLE tablename (id integer primary key, butterscotch text,strawberry text,chocolate text,pistachio text,coffee text)";

const SELECT: &[u8] = b"SELECT butterscotch FROM pistachio";

fn create() -> Result<SqlCreateTable, SqlError> {
    parse(CREATE_TABLE).map(|elt| lift_create_table(elt).unwrap())
}

fn select_query() -> Result<SqlSelect, SqlError> {
    parse(SELECT).map(|elt| lift_select(elt).unwrap())
}

fn declared(table: &SqlCreateTable, name: &str) -> Option<String> {
    table
        .column(name.as_bytes())
        .map(|i| String::from_utf8(table.signature[i].declared_type.clone()).unwrap())
}

#[test]
fn create_table_is_ok() {
    let table = create();
    assert!(table.is_ok());
}

#[test]
fn create_table_name_matches() {
    let table = create();
    assert!(table.is_ok_and(|SqlCreateTable { name, .. }| name == b"tablename"))
}

#[test]
fn create_table_signature_matches() {
    let table = create();
    assert!(table.is_ok_and(|t| declared(&t, "id").is_some_and(|id| id == "integer primary key")
        && declared(&t, "butterscotch").is_some_and(|elt| elt == "text")
        && declared(&t, "strawberry").is_some_and(|elt| elt == "text")
        && declared(&t, "chocolate").is_some_and(|elt| elt == "text")
        && declared(&t, "pistachio").is_some_and(|elt| elt == "text")
        && declared(&t, "coffee").is_some_and(|elt| elt == "text")))
}

#[test]
fn select_is_ok() {
    let select = select_query();
    assert!(select.is_ok())
}

#[test]
fn select_query_matches() {
    let select = select_query();
    assert!(select.is_ok_and(|SqlSelect { query, .. }| query == b"butterscotch"))
}

#[test]
fn select_source_matches() {
    let select = select_query();
    assert!(select.is_ok_and(|SqlSelect { source, .. }| source == b"pistachio"))
}

#[test]
fn sql_column_positions() {
    let t = create().unwrap();
    assert_eq!(t.signature.len(), 6);
    assert_eq!(t.column(b"id"), Some(0));
    assert_eq!(t.column(b"coffee"), Some(5));
    assert_eq!(t.signature[5].index, 5);
    assert_eq!(t.column(b"missing"), None);
}

#[test]
fn sql_errors_and_other_shapes() {
    assert_eq!(parse(b"DELETE FROM t"), Err(SqlError::Unsupported));
    assert_eq!(parse(b"select a, b"), Err(SqlError::MissingFrom));
    assert_eq!(parse(b"create table t"), Err(SqlError::MissingSignature));
    assert_eq!(select(b"insert"), Err(SqlError::MissingPrefix));
    assert_eq!(create_table(b"create index i"), Err(SqlError::MissingPrefix));
    let s = select(b"select   a ,b   from   t  ").unwrap();
    assert_eq!(s.query, b"a ,b".to_vec());
    assert_eq!(s.source, b"t".to_vec());
    match parse(b"Create Table T (A Int, b)").unwrap() {
        Sql::CreateTable(t) => {
            assert_eq!(t.name, b"t".to_vec());
            // Column definitions stop at the first piece without a type.
            assert_eq!(t.signature.len(), 1);
            assert_eq!(t.signature[0].name, b"a".to_vec());
            assert_eq!(t.signature[0].declared_type, b"int".to_vec());
        }
        other => panic!("unexpected {other:?}"),
    }
    assert!(lift_select(parse(b"create table t (a int)").unwrap()).is_none());
    assert!(lift_create_table(parse(b"select a from t").unwrap()).is_none());
}
