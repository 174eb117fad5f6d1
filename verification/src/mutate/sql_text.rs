//! The SQL that the engine writes for itself.
use vstd::prelude::*;
use vstd::string::*;

use crate::text::laws::{decimal_writes_the_number, is_numeral, numeral};
use crate::text::{chars_of, decimal, decimal_text};

verus! {

/// `s` with every double quote doubled.
pub open spec fn doubled(s: Seq<char>) -> Seq<char>
    decreases s.len(),
{
    if s.len() == 0 {
        s
    } else if s.last() == '"' {
        doubled(s.drop_last()) + seq!['"', '"']
    } else {
        doubled(s.drop_last()).push(s.last())
    }
}

/// An identifier as SQL writes it, whatever characters it holds.
pub open spec fn quoted(name: Seq<char>) -> Seq<char> {
    seq!['"'] + doubled(name) + seq!['"']
}

/// Quotes an identifier for use in SQL text.
pub fn quote_sql_identifier(name: &str) -> (r: String)
    ensures
        r@ == quoted(name@),
{
    let chars = chars_of(name);
    let mut out = String::new();
    out.push('"');
    let mut i: usize = 0;
    assert(name@.take(0) =~= Seq::<char>::empty());
    assert(out@ =~= seq!['"'] + doubled(name@.take(0)));
    while i < chars.len()
        invariant
            i <= chars@.len(),
            chars@ == name@,
            out@ == seq!['"'] + doubled(name@.take(i as int)),
        decreases chars@.len() - i,
    {
        let c: char = chars[i];
        let ghost before = out@;
        assert(name@.take(i as int + 1).drop_last() =~= name@.take(i as int));
        if c == '"' {
            out.push('"');
        }
        out.push(c);
        i = i + 1;
        assert(out@ =~= seq!['"'] + doubled(name@.take(i as int)));
    }
    assert(name@.take(i as int) =~= name@);
    out.push('"');
    assert(out@ =~= quoted(name@));
    out
}

/// How SQL reads the inside of a quoted identifier, from just behind the
/// opening quote: a doubled quote stands for one, and a single one ends the
/// identifier. The result is what was read and what follows.
pub open spec fn read_quoted(s: Seq<char>) -> Option<(Seq<char>, Seq<char>)>
    decreases s.len(),
{
    if s.len() == 0 {
        None
    } else if s[0] != '"' {
        match read_quoted(s.drop_first()) {
            Some((name, rest)) => Some((seq![s[0]] + name, rest)),
            None => None,
        }
    } else if s.len() > 1 && s[1] == '"' {
        match read_quoted(s.skip(2)) {
            Some((name, rest)) => Some((seq!['"'] + name, rest)),
            None => None,
        }
    } else {
        Some((seq![], s.skip(1)))
    }
}

/// `doubled`, taken from the front.
proof fn doubled_from_front(s: Seq<char>)
    requires
        s.len() > 0,
    ensures
        doubled(s) == (if s[0] == '"' {
            seq!['"', '"']
        } else {
            seq![s[0]]
        }) + doubled(s.drop_first()),
    decreases s.len(),
{
    if s.len() == 1 {
        assert(s.drop_last() =~= Seq::<char>::empty());
        assert(s.drop_first() =~= Seq::<char>::empty());
        assert(doubled(s) =~= (if s[0] == '"' {
            seq!['"', '"']
        } else {
            seq![s[0]]
        }) + doubled(s.drop_first()));
    } else {
        doubled_from_front(s.drop_last());
        assert(s.drop_last().drop_first() =~= s.drop_first().drop_last());
        assert(doubled(s) =~= (if s[0] == '"' {
            seq!['"', '"']
        } else {
            seq![s[0]]
        }) + doubled(s.drop_first()));
    }
}

proof fn read_doubled(name: Seq<char>, rest: Seq<char>)
    requires
        rest.len() == 0 || rest[0] != '"',
    ensures
        read_quoted(doubled(name) + seq!['"'] + rest) == Some((name, rest)),
    decreases name.len(),
{
    let text = doubled(name) + seq!['"'] + rest;
    if name.len() == 0 {
        assert(text =~= seq!['"'] + rest);
        assert(text.skip(1) =~= rest);
    } else {
        doubled_from_front(name);
        let tail = doubled(name.drop_first()) + seq!['"'] + rest;
        read_doubled(name.drop_first(), rest);
        if name[0] == '"' {
            assert(text =~= seq!['"', '"'] + tail);
            assert(text.skip(2) =~= tail);
            assert(seq!['"'] + name.drop_first() =~= name);
        } else {
            assert(text =~= seq![name[0]] + tail);
            assert(text.drop_first() =~= tail);
            assert(seq![name[0]] + name.drop_first() =~= name);
        }
    }
}

/// A quoted identifier reads back as the identifier, whatever characters it
/// holds and whatever text follows it, as long as that does not begin with a
/// quote. No identifier can reach out of its quotes.
pub proof fn quoted_reads_back(name: Seq<char>, rest: Seq<char>)
    requires
        rest.len() == 0 || rest[0] != '"',
    ensures
        (quoted(name) + rest)[0] == '"',
        read_quoted((quoted(name) + rest).drop_first()) == Some((name, rest)),
{
    read_doubled(name, rest);
    assert((quoted(name) + rest).drop_first() =~= doubled(name) + seq!['"'] + rest);
}

/// Two identifiers that are quoted alike are the same.
pub proof fn quoting_is_injective(a: Seq<char>, b: Seq<char>)
    requires
        quoted(a) == quoted(b),
    ensures
        a == b,
{
    quoted_reads_back(a, seq![]);
    quoted_reads_back(b, seq![]);
}

/// The pieces one behind the other, with `sep` between them.
pub open spec fn joined(pieces: Seq<Seq<char>>, sep: Seq<char>) -> Seq<char>
    decreases pieces.len(),
{
    if pieces.len() == 0 {
        seq![]
    } else if pieces.len() == 1 {
        pieces[0]
    } else {
        joined(pieces.drop_last(), sep) + sep + pieces.last()
    }
}

/// Appends one more piece to a joined text.
pub(crate) fn join_piece(out: &mut String, first: bool, sep: &str, piece: &str, pieces: Ghost<
    Seq<Seq<char>>,
>)
    requires
        old(out)@ == joined(pieces@, sep@),
        first == (pieces@.len() == 0),
    ensures
        final(out)@ == joined(pieces@.push(piece@), sep@),
{
    let ghost more = pieces@.push(piece@);
    assert(more.drop_last() =~= pieces@);
    if !first {
        out.append(sep);
    }
    out.append(piece);
    assert(first ==> out@ =~= piece@);
}

/// Row ids as a SQL list.
pub open spec fn id_list(ids: Seq<u64>) -> Seq<char> {
    joined(ids.map_values(|id: u64| decimal(id as nat)), ", "@)
}

pub fn id_list_text(ids: &Vec<u64>) -> (r: String)
    ensures
        r@ == id_list(ids@),
{
    let mut out = String::new();
    let ghost pieces: Seq<Seq<char>> = seq![];
    let mut i: usize = 0;
    while i < ids.len()
        invariant
            i <= ids@.len(),
            pieces.len() == i,
            forall|k: int| 0 <= k < i ==> pieces[k] == decimal(ids@[k] as nat),
            out@ == joined(pieces, ", "@),
        decreases ids@.len() - i,
    {
        let piece = decimal_text(ids[i]);
        join_piece(&mut out, i == 0, ", ", piece.as_str(), Ghost(pieces));
        proof {
            pieces = pieces.push(piece@);
        }
        i = i + 1;
    }
    assert(pieces =~= ids@.map_values(|id: u64| decimal(id as nat)));
    out
}

/// The query that reads the rows of a table by their ids.
pub open spec fn rows_by_id_sql(table: Seq<char>, ids: Seq<u64>) -> Seq<char> {
    "SELECT * FROM "@ + quoted(table) + " WHERE _rowid IN ("@ + id_list(ids) + ")"@
}

pub fn rows_by_id_query(table: &str, ids: &Vec<u64>) -> (r: String)
    ensures
        r@ == rows_by_id_sql(table@, ids@),
{
    let mut out: String = "SELECT * FROM ".to_owned();
    let name = quote_sql_identifier(table);
    out.append(name.as_str());
    out.append(" WHERE _rowid IN (");
    let list = id_list_text(ids);
    out.append(list.as_str());
    out.append(")");
    out
}

/// The query that reads the key, id and address of rows by their ids.
pub open spec fn keys_by_id_sql(key: Seq<char>, table: Seq<char>, ids: Seq<u64>) -> Seq<char> {
    "SELECT "@ + quoted(key) + ", _rowid, _rowaddr FROM "@ + quoted(table) + " WHERE _rowid IN ("@
        + id_list(ids) + ")"@
}

pub fn keys_by_id_query(key: &str, table: &str, ids: &Vec<u64>) -> (r: String)
    ensures
        r@ == keys_by_id_sql(key@, table@, ids@),
{
    let mut out: String = "SELECT ".to_owned();
    let column = quote_sql_identifier(key);
    out.append(column.as_str());
    out.append(", _rowid, _rowaddr FROM ");
    let name = quote_sql_identifier(table);
    out.append(name.as_str());
    out.append(" WHERE _rowid IN (");
    let list = id_list_text(ids);
    out.append(list.as_str());
    out.append(")");
    out
}

/// Joining puts the separator between the pieces and nowhere else.
pub proof fn separators_stand_between(a: Seq<Seq<char>>, b: Seq<Seq<char>>, sep: Seq<char>)
    requires
        a.len() > 0,
        b.len() > 0,
    ensures
        joined(Seq::<Seq<char>>::empty(), sep).len() == 0,
        a.len() == 1 ==> joined(a, sep) == a[0],
        joined(a + b, sep) == joined(a, sep) + sep + joined(b, sep),
    decreases b.len(),
{
    assert((a + b).drop_last() =~= a + b.drop_last());
    if b.len() == 1 {
        assert(a + b.drop_last() =~= a);
    } else {
        separators_stand_between(a, b.drop_last(), sep);
        assert(joined(a + b, sep) =~= joined(a, sep) + sep + joined(b, sep));
    }
}

/// A list of ids holds the numeral of each one, in order, with a comma and a
/// blank between them.
pub proof fn id_lists_hold_the_numerals(a: Seq<u64>, id: u64, b: Seq<u64>)
    ensures
        is_numeral(id_list(seq![id])),
        numeral(id_list(seq![id])) == id,
        a.len() > 0 && b.len() > 0 ==> id_list(a + b) == id_list(a) + seq![',', ' '] + id_list(b),
        id_list(Seq::<u64>::empty()).len() == 0,
{
    let write = |n: u64| decimal(n as nat);
    let one = seq![id].map_values(write);
    assert(one =~= seq![decimal(id as nat)]);
    decimal_writes_the_number(id as nat);
    if a.len() > 0 && b.len() > 0 {
        separators_stand_between(a.map_values(write), b.map_values(write), ", "@);
        assert((a + b).map_values(write) =~= a.map_values(write) + b.map_values(write));
        reveal_strlit(", ");
        assert(", "@ =~= seq![',', ' ']);
    }
    assert(Seq::<u64>::empty().map_values(write) =~= Seq::<Seq<char>>::empty());
}

/// The queries by id name the table, and the key, so that they read back, and
/// end with the list of the ids in brackets.
pub proof fn queries_name_the_table_and_the_rows(
    key: Seq<char>,
    table: Seq<char>,
    ids: Seq<u64>,
)
    ensures
        ({
            let text = rows_by_id_sql(table, ids);
            &&& text.len() > 15
            &&& text.take(14) == "SELECT * FROM "@
            &&& text[14] == '"'
            &&& read_quoted(text.skip(15)) == Some(
                (table, " WHERE _rowid IN ("@ + id_list(ids) + ")"@),
            )
        }),
        ({
            let text = keys_by_id_sql(key, table, ids);
            let behind_key = ", _rowid, _rowaddr FROM "@ + quoted(table) + " WHERE _rowid IN ("@
                + id_list(ids) + ")"@;
            &&& text.len() > 8
            &&& text.take(7) == "SELECT "@
            &&& text[7] == '"'
            &&& read_quoted(text.skip(8)) == Some((key, behind_key))
        }),
{
    reveal_strlit("SELECT * FROM ");
    reveal_strlit("SELECT ");
    reveal_strlit(" WHERE _rowid IN (");
    reveal_strlit(", _rowid, _rowaddr FROM ");
    let tail = " WHERE _rowid IN ("@ + id_list(ids) + ")"@;
    let text = rows_by_id_sql(table, ids);
    quoted_reads_back(table, tail);
    assert(text =~= "SELECT * FROM "@ + (quoted(table) + tail));
    assert(text.take(14) =~= "SELECT * FROM "@);
    assert(text.skip(15) =~= (quoted(table) + tail).drop_first());
    let keys = keys_by_id_sql(key, table, ids);
    let behind_key = ", _rowid, _rowaddr FROM "@ + quoted(table) + " WHERE _rowid IN ("@ + id_list(
        ids,
    ) + ")"@;
    quoted_reads_back(key, behind_key);
    assert(keys =~= "SELECT "@ + (quoted(key) + behind_key));
    assert(keys.take(7) =~= "SELECT "@);
    assert(keys.skip(8) =~= (quoted(key) + behind_key).drop_first());
}

} // verus!
