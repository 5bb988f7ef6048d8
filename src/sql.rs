use crate::bytes::bytes_equal;
use vstd::prelude::*;
use vstd::slice::{slice_subrange, slice_to_vec};

verus! {

/// ASCII lower case of one byte; other bytes stay as they are.
pub open spec fn lower_byte(b: u8) -> u8 {
    if 65 <= b <= 90 {
        (b + 32) as u8
    } else {
        b
    }
}

/// ASCII lower case of a byte string.
pub open spec fn lower(s: Seq<u8>) -> Seq<u8> {
    Seq::new(s.len(), |i: int| lower_byte(s[i]))
}

/// Which bytes a trim removes: ASCII white space, or one given byte.
#[derive(Clone, Copy, Debug, PartialEq, Eq, Structural)]
pub enum Strip {
    Space,
    Byte(u8),
}

/// Byte `b` is one that `c` removes.
pub open spec fn strips(c: Strip, b: u8) -> bool {
    match c {
        Strip::Space => b == 32 || (9 <= b && b <= 13),
        Strip::Byte(x) => b == x,
    }
}

/// `s` without the bytes that `c` removes at its start.
pub open spec fn trim_start(s: Seq<u8>, c: Strip) -> Seq<u8>
    decreases s.len(),
{
    if s.len() > 0 && strips(c, s[0]) {
        trim_start(s.skip(1), c)
    } else {
        s
    }
}

/// `s` without the bytes that `c` removes at its end.
pub open spec fn trim_end(s: Seq<u8>, c: Strip) -> Seq<u8>
    decreases s.len(),
{
    if s.len() > 0 && strips(c, s.last()) {
        trim_end(s.drop_last(), c)
    } else {
        s
    }
}

/// `s` without white space at either end.
pub open spec fn trim(s: Seq<u8>) -> Seq<u8> {
    trim_end(trim_start(s, Strip::Space), Strip::Space)
}

/// `s` begins with `p`.
pub open spec fn starts_with(s: Seq<u8>, p: Seq<u8>) -> bool {
    p.len() <= s.len() && s.take(p.len() as int) == p
}

/// The first position at or after `i` where `pat` occurs in `s`.
pub open spec fn find_from(s: Seq<u8>, pat: Seq<u8>, i: nat) -> Option<nat>
    decreases s.len() + 1 - i,
{
    if i + pat.len() > s.len() {
        None
    } else if s.subrange(i as int, (i + pat.len()) as int) == pat {
        Some(i)
    } else {
        find_from(s, pat, i + 1)
    }
}

proof fn lemma_find_from_bound(s: Seq<u8>, pat: Seq<u8>, i: nat)
    ensures
        find_from(s, pat, i) matches Some(k) ==> i <= k && k + pat.len() <= s.len(),
    decreases s.len() + 1 - i,
{
    if i + pat.len() <= s.len() && s.subrange(i as int, (i + pat.len()) as int) != pat {
        lemma_find_from_bound(s, pat, i + 1);
    }
}

/// ASCII lower case of `s`.
pub fn lowercase(s: &[u8]) -> (r: Vec<u8>)
    ensures
        r@ == lower(s@),
{
    let mut out: Vec<u8> = Vec::new();
    let mut i: usize = 0;
    while i < s.len()
        invariant
            i <= s@.len(),
            out@ == lower(s@).take(i as int),
        decreases s@.len() - i,
    {
        let b = s[i];
        let l = if 65 <= b && b <= 90 {
            b + 32
        } else {
            b
        };
        out.push(l);
        i = i + 1;
        assert(out@ =~= lower(s@).take(i as int));
    }
    assert(lower(s@).take(s@.len() as int) =~= lower(s@));
    out
}

fn is_stripped(c: Strip, b: u8) -> (r: bool)
    ensures
        r == strips(c, b),
{
    match c {
        Strip::Space => b == 32 || (9 <= b && b <= 13),
        Strip::Byte(x) => b == x,
    }
}

/// Copies `s` without the bytes that `c` removes at its start and those
/// that `d` removes at its end.
pub fn trim_bytes(s: &[u8], c: Strip, d: Strip) -> (r: Vec<u8>)
    ensures
        r@ == trim_end(trim_start(s@, c), d),
{
    let len = s.len();
    let mut a: usize = 0;
    assert(s@.skip(0) == s@);
    while a < len && is_stripped(c, s[a])
        invariant
            len == s@.len(),
            a <= len,
            trim_start(s@, c) == trim_start(s@.skip(a as int), c),
        decreases len - a,
    {
        assert(s@.skip(a as int).skip(1) == s@.skip(a + 1));
        a = a + 1;
    }
    assert(trim_start(s@, c) == s@.skip(a as int));
    let mut b: usize = len;
    while b > a && is_stripped(d, s[b - 1])
        invariant
            len == s@.len(),
            a <= b <= len,
            trim_end(s@.skip(a as int), d) == trim_end(s@.subrange(a as int, b as int), d),
        decreases b,
    {
        assert(s@.subrange(a as int, b as int).drop_last() == s@.subrange(a as int, b - 1));
        b = b - 1;
    }
    assert(s@.skip(a as int) == s@.subrange(a as int, len as int));
    slice_to_vec(slice_subrange(s, a, b))
}

/// The first position of `pat` in `s`.
pub fn find(s: &[u8], pat: &[u8]) -> (r: Option<usize>)
    ensures
        r matches Some(i) ==> find_from(s@, pat@, 0) == Some(i as nat),
        r is None ==> find_from(s@, pat@, 0) is None,
{
    let len = s.len();
    let n = pat.len();
    if n > len {
        return None;
    }
    let mut i: usize = 0;
    loop
        invariant
            len == s@.len(),
            n == pat@.len(),
            n <= len,
            i <= len - n,
            find_from(s@, pat@, 0) == find_from(s@, pat@, i as nat),
        decreases len - n - i,
    {
        if bytes_equal(slice_subrange(s, i, i + n), pat) {
            return Some(i);
        }
        if i == len - n {
            assert(find_from(s@, pat@, (i + 1) as nat) is None);
            return None;
        }
        i = i + 1;
    }
}


/// `s` begins with `p`.
pub fn has_prefix(s: &[u8], p: &[u8]) -> (r: bool)
    ensures
        r == starts_with(s@, p@),
{
    if p.len() > s.len() {
        return false;
    }
    bytes_equal(slice_subrange(s, 0, p.len()), p)
}

/// The bytes of "select".
pub open spec fn select_keyword() -> Seq<u8> {
    seq![115u8, 101, 108, 101, 99, 116]
}

/// The bytes of "from".
pub open spec fn from_keyword() -> Seq<u8> {
    seq![102u8, 114, 111, 109]
}

/// The bytes of "create table".
pub open spec fn create_table_keyword() -> Seq<u8> {
    seq![99u8, 114, 101, 97, 116, 101, 32, 116, 97, 98, 108, 101]
}

/// Why a query text could not be split.
#[derive(Clone, Copy, Debug, PartialEq, Eq, Structural)]
pub enum SqlError {
    /// Neither a SELECT nor a CREATE TABLE statement.
    Unsupported,
    /// The text does not start with the statement's keyword.
    MissingPrefix,
    /// A SELECT without FROM.
    MissingFrom,
    /// A CREATE TABLE with no column list after its name.
    MissingSignature,
}

/// The column list and the source table of `SELECT <query> FROM <source>`.
#[derive(Clone, Debug, PartialEq, Eq)]
pub struct SqlSelect {
    pub query: Vec<u8>,
    pub source: Vec<u8>,
}

/// The pieces of a lower-case SELECT text.
pub open spec fn select_spec(s: Seq<u8>) -> Result<(Seq<u8>, Seq<u8>), SqlError> {
    if !starts_with(s, select_keyword()) {
        Err(SqlError::MissingPrefix)
    } else {
        let rest = trim(s.skip(6));
        match find_from(rest, from_keyword(), 0) {
            None => Err(SqlError::MissingFrom),
            Some(i) => Ok((trim(rest.take(i as int)), trim(rest.skip(i + 4int)))),
        }
    }
}

/// Splits a lower-case `select <query> from <source>` text at its first
/// "from".
pub fn select(s: &[u8]) -> (r: Result<SqlSelect, SqlError>)
    ensures
        match select_spec(s@) {
            Ok((q, src)) => r matches Ok(x) && x.query@ == q && x.source@ == src,
            Err(e) => r == Err::<SqlSelect, SqlError>(e),
        },
{
    let kw: [u8; 6] = [115, 101, 108, 101, 99, 116];
    assert(kw@ == select_keyword());
    if !has_prefix(s, &kw) {
        return Err(SqlError::MissingPrefix);
    }
    let len = s.len();
    let rest = trim_bytes(slice_subrange(s, 6, len), Strip::Space, Strip::Space);
    assert(s@.subrange(6, len as int) == s@.skip(6));
    let from: [u8; 4] = [102, 114, 111, 109];
    assert(from@ == from_keyword());
    match find(rest.as_slice(), &from) {
        None => Err(SqlError::MissingFrom),
        Some(i) => {
            proof {
                lemma_find_from_bound(rest@, from@, 0);
            }
            let n = rest.len();
            let query = trim_bytes(slice_subrange(rest.as_slice(), 0, i), Strip::Space, Strip::Space);
            let source = trim_bytes(
                slice_subrange(rest.as_slice(), i + 4, n),
                Strip::Space,
                Strip::Space,
            );
            assert(rest@.subrange(0, i as int) == rest@.take(i as int));
            assert(rest@.subrange(i + 4, n as int) == rest@.skip(i + 4int));
            Ok(SqlSelect { query, source })
        },
    }
}

/// The pieces of `s` between commas, in order.
pub open spec fn split_commas(s: Seq<u8>) -> Seq<Seq<u8>>
    decreases s.len(),
{
    match find_from(s, seq![44u8], 0) {
        None => seq![s],
        Some(i) => if i < s.len() {
            seq![s.take(i as int)] + split_commas(s.skip(i + 1int))
        } else {
            seq![s]
        },
    }
}

/// One column of a CREATE TABLE column list: its name, its position and
/// the rest of its definition.
#[derive(Clone, Debug, PartialEq, Eq)]
pub struct ColumnDef {
    pub name: Vec<u8>,
    pub index: usize,
    pub declared_type: Vec<u8>,
}

/// The column definitions that the pieces `pieces[k..]` give, stopping at
/// the first piece that has no space after trimming.
pub open spec fn column_defs(pieces: Seq<Seq<u8>>, k: nat) -> Seq<(Seq<u8>, nat, Seq<u8>)>
    decreases pieces.len() - k,
{
    if k >= pieces.len() {
        Seq::empty()
    } else {
        let p = trim(pieces[k as int]);
        match find_from(p, seq![32u8], 0) {
            None => Seq::empty(),
            Some(i) => seq![(p.take(i as int), k, p.skip(i + 1int))] + column_defs(pieces, k + 1),
        }
    }
}

/// The views of a run of column definitions.
pub open spec fn defs_view(v: Seq<ColumnDef>) -> Seq<(Seq<u8>, nat, Seq<u8>)> {
    Seq::new(v.len(), |i: int| (v[i].name@, v[i].index as nat, v[i].declared_type@))
}

/// The table name and column list of a CREATE TABLE statement.
#[derive(Clone, Debug, PartialEq, Eq)]
pub struct SqlCreateTable {
    pub name: Vec<u8>,
    pub signature: Vec<ColumnDef>,
}

/// The pieces of a lower-case CREATE TABLE text.
pub open spec fn create_table_spec(s: Seq<u8>) -> Result<
    (Seq<u8>, Seq<(Seq<u8>, nat, Seq<u8>)>),
    SqlError,
> {
    if !starts_with(s, create_table_keyword()) {
        Err(SqlError::MissingPrefix)
    } else {
        let rest = trim(s.skip(12));
        match find_from(rest, seq![32u8], 0) {
            None => Err(SqlError::MissingSignature),
            Some(i) => {
                let sig = trim_end(
                    trim_start(rest.skip(i + 1int), Strip::Byte(40)),
                    Strip::Byte(41),
                );
                Ok((rest.take(i as int), column_defs(split_commas(sig), 0)))
            },
        }
    }
}


/// The views of a run of byte strings.
pub open spec fn pieces_view(v: Seq<Vec<u8>>) -> Seq<Seq<u8>> {
    Seq::new(v.len(), |i: int| v[i]@)
}

/// Splits `s` at every comma.
pub fn split_on_commas(s: &[u8]) -> (r: Vec<Vec<u8>>)
    ensures
        pieces_view(r@) == split_commas(s@),
{
    let mut out: Vec<Vec<u8>> = Vec::new();
    let mut rest: Vec<u8> = slice_to_vec(s);
    let comma: [u8; 1] = [44];
    assert(comma@ == seq![44u8]);
    loop
        invariant
            comma@ == seq![44u8],
            split_commas(s@) == pieces_view(out@) + split_commas(rest@),
        decreases rest@.len(),
    {
        let ghost prev = out@;
        match find(rest.as_slice(), &comma) {
            None => {
                let ghost last = rest@;
                out.push(rest);
                assert(pieces_view(out@) =~= pieces_view(prev) + seq![last]);
                return out;
            },
            Some(i) => {
                proof {
                    lemma_find_from_bound(rest@, comma@, 0);
                }
                let n = rest.len();
                let piece = slice_to_vec(slice_subrange(rest.as_slice(), 0, i));
                let tail = slice_to_vec(slice_subrange(rest.as_slice(), i + 1, n));
                assert(rest@.subrange(0, i as int) == rest@.take(i as int));
                assert(rest@.subrange(i + 1, n as int) == rest@.skip(i + 1int));
                let ghost p = piece@;
                out.push(piece);
                assert(pieces_view(out@) =~= pieces_view(prev) + seq![p]);
                assert(pieces_view(prev) + seq![p] + split_commas(tail@) =~= pieces_view(prev) + (
                seq![p] + split_commas(tail@)));
                rest = tail;
            },
        }
    }
}

/// The column definitions that `pieces` give, stopping at the first piece
/// that has no space after trimming.
pub fn read_column_defs(pieces: &Vec<Vec<u8>>) -> (r: Vec<ColumnDef>)
    ensures
        defs_view(r@) == column_defs(pieces_view(pieces@), 0),
{
    let ghost pv = pieces_view(pieces@);
    let space: [u8; 1] = [32];
    assert(space@ == seq![32u8]);
    let mut out: Vec<ColumnDef> = Vec::new();
    let mut k: usize = 0;
    while k < pieces.len()
        invariant
            pv == pieces_view(pieces@),
            space@ == seq![32u8],
            k <= pieces@.len(),
            column_defs(pv, 0) == defs_view(out@) + column_defs(pv, k as nat),
        decreases pieces@.len() - k,
    {
        assert(pv[k as int] == pieces@[k as int]@);
        let p = trim_bytes(pieces[k].as_slice(), Strip::Space, Strip::Space);
        match find(p.as_slice(), &space) {
            None => {
                assert(defs_view(out@) + Seq::empty() =~= defs_view(out@));
                return out;
            },
            Some(i) => {
                proof {
                    lemma_find_from_bound(p@, space@, 0);
                }
                let n = p.len();
                let name = slice_to_vec(slice_subrange(p.as_slice(), 0, i));
                let declared_type = slice_to_vec(slice_subrange(p.as_slice(), i + 1, n));
                assert(p@.subrange(0, i as int) == p@.take(i as int));
                assert(p@.subrange(i + 1, n as int) == p@.skip(i + 1int));
                let def = ColumnDef { name, index: k, declared_type };
                let ghost d = (def.name@, k as nat, def.declared_type@);
                let ghost prev = out@;
                out.push(def);
                assert(defs_view(out@) =~= defs_view(prev) + seq![d]);
                assert(defs_view(prev) + seq![d] + column_defs(pv, (k + 1) as nat) =~= defs_view(prev)
                    + (seq![d] + column_defs(pv, (k + 1) as nat)));
                k = k + 1;
            },
        }
    }
    assert(defs_view(out@) + Seq::empty() =~= defs_view(out@));
    out
}

/// Splits a lower-case `create table <name> (<column> <type>, ...)` text
/// into the table name and its column definitions.
pub fn create_table(s: &[u8]) -> (r: Result<SqlCreateTable, SqlError>)
    ensures
        match create_table_spec(s@) {
            Ok((n, defs)) => r matches Ok(x) && x.name@ == n && defs_view(x.signature@) == defs,
            Err(e) => r == Err::<SqlCreateTable, SqlError>(e),
        },
{
    let kw: [u8; 12] = [99, 114, 101, 97, 116, 101, 32, 116, 97, 98, 108, 101];
    assert(kw@ == create_table_keyword());
    if !has_prefix(s, &kw) {
        return Err(SqlError::MissingPrefix);
    }
    let len = s.len();
    let rest = trim_bytes(slice_subrange(s, 12, len), Strip::Space, Strip::Space);
    assert(s@.subrange(12, len as int) == s@.skip(12));
    let space: [u8; 1] = [32];
    assert(space@ == seq![32u8]);
    match find(rest.as_slice(), &space) {
        None => Err(SqlError::MissingSignature),
        Some(i) => {
            proof {
                lemma_find_from_bound(rest@, space@, 0);
            }
            let n = rest.len();
            let name = slice_to_vec(slice_subrange(rest.as_slice(), 0, i));
            assert(rest@.subrange(0, i as int) == rest@.take(i as int));
            assert(rest@.subrange(i + 1, n as int) == rest@.skip(i + 1int));
            let sig = trim_bytes(
                slice_subrange(rest.as_slice(), i + 1, n),
                Strip::Byte(40),
                Strip::Byte(41),
            );
            let pieces = split_on_commas(sig.as_slice());
            let signature = read_column_defs(&pieces);
            Ok(SqlCreateTable { name, signature })
        },
    }
}

impl SqlCreateTable {
    /// Index in `signature` of the definition of column `name`; where a
    /// name is defined twice, the later definition counts.
    pub fn column(&self, name: &[u8]) -> (r: Option<usize>)
        ensures
            match r {
                Some(i) => i < self.signature@.len() && self.signature@[i as int].name@ == name@
                    && forall|j: int|
                    i < j < self.signature@.len() ==> self.signature@[j].name@ != name@,
                None => forall|j: int|
                    0 <= j < self.signature@.len() ==> self.signature@[j].name@ != name@,
            },
    {
        let mut i: usize = self.signature.len();
        while i > 0
            invariant
                i <= self.signature@.len(),
                forall|j: int| i <= j < self.signature@.len() ==> self.signature@[j].name@ != name@,
            decreases i,
        {
            if bytes_equal(self.signature[i - 1].name.as_slice(), name) {
                return Some(i - 1);
            }
            i = i - 1;
        }
        None
    }
}

/// A statement that the query front end understands.
#[derive(Clone, Debug, PartialEq, Eq)]
pub enum Sql {
    Select(SqlSelect),
    CreateTable(SqlCreateTable),
}

/// Lower-cases a statement and splits it as a SELECT or a CREATE TABLE,
/// by its leading keyword.
pub fn parse(data: &[u8]) -> (r: Result<Sql, SqlError>)
    ensures
        starts_with(lower(data@), select_keyword()) ==> match select_spec(lower(data@)) {
            Ok((q, src)) => r matches Ok(Sql::Select(x)) && x.query@ == q && x.source@ == src,
            Err(e) => r == Err::<Sql, SqlError>(e),
        },
        !starts_with(lower(data@), select_keyword()) && starts_with(
            lower(data@),
            create_table_keyword(),
        ) ==> match create_table_spec(lower(data@)) {
            Ok((n, defs)) => r matches Ok(Sql::CreateTable(x)) && x.name@ == n && defs_view(
                x.signature@,
            ) == defs,
            Err(e) => r == Err::<Sql, SqlError>(e),
        },
        !starts_with(lower(data@), select_keyword()) && !starts_with(
            lower(data@),
            create_table_keyword(),
        ) ==> r == Err::<Sql, SqlError>(SqlError::Unsupported),
{
    let s = lowercase(data);
    let select_kw: [u8; 6] = [115, 101, 108, 101, 99, 116];
    assert(select_kw@ == select_keyword());
    let create_kw: [u8; 12] = [99, 114, 101, 97, 116, 101, 32, 116, 97, 98, 108, 101];
    assert(create_kw@ == create_table_keyword());
    if has_prefix(s.as_slice(), &select_kw) {
        match select(s.as_slice()) {
            Ok(x) => Ok(Sql::Select(x)),
            Err(e) => Err(e),
        }
    } else if has_prefix(s.as_slice(), &create_kw) {
        match create_table(s.as_slice()) {
            Ok(x) => Ok(Sql::CreateTable(x)),
            Err(e) => Err(e),
        }
    } else {
        Err(SqlError::Unsupported)
    }
}

/// The SELECT that `sql` holds, if it is one.
pub fn lift_select(sql: Sql) -> (r: Option<SqlSelect>)
    ensures
        match sql {
            Sql::Select(x) => r == Some(x),
            _ => r is None,
        },
{
    match sql {
        Sql::Select(x) => Some(x),
        _ => None,
    }
}

/// The CREATE TABLE that `sql` holds, if it is one.
pub fn lift_create_table(sql: Sql) -> (r: Option<SqlCreateTable>)
    ensures
        match sql {
            Sql::CreateTable(x) => r == Some(x),
            _ => r is None,
        },
{
    match sql {
        Sql::CreateTable(x) => Some(x),
        _ => None,
    }
}

} // verus!
