//! Keys for encrypted tables.
//!
//! Which keys a query needs, in which case it can go without, and the prefix
//! that binds a file to its table are decided here. Fetching the keys and
//! handing them to the Parquet reader is up to the caller.
use vstd::prelude::*;
use vstd::string::*;

use base64::Engine;

use crate::error::{CoreError, QueryError, Result};
use crate::scalar::text_view;
use crate::text::laws::{
    digit_of, is_blank, is_numeral, numbers_are_read_from_numerals, numeral,
    only_white_space_is_trimmed, the_first_separator_splits,
};
use crate::text::{
    is_space, order_texts, parse_u64, parsed_u64, split, split_once, split_text, split_text_once, text_less,
    texts, trim, trimmed, TextOrder,
};

verus! {

/// What `STANDARD.decode` of the crate `base64` makes of a text: the bytes, or
/// the message of the error.
pub uninterp spec fn base64_decoded(text: Seq<char>) -> core::result::Result<Seq<u8>, Seq<char>>;

/// Calls `base64::engine::general_purpose::STANDARD.decode`; what it returns
/// depends on the text alone. An error is kept as its message.
#[verifier::external_body]
fn decode_base64(text: &str) -> (r: core::result::Result<Vec<u8>, String>)
    ensures
        match r {
            Ok(bytes) => base64_decoded(text@) == Ok::<Seq<u8>, Seq<char>>(bytes@),
            Err(message) => base64_decoded(text@) == Err::<Seq<u8>, Seq<char>>(message@),
        },
{
    base64::engine::general_purpose::STANDARD.decode(text).map_err(|e| e.to_string())
}

/// What decoding a prefix gave: the bytes, or the message of the error.
pub type Decoded = core::result::Result<Vec<u8>, String>;

/// The bytes of a prefix that was decoded, where there was one and it could
/// be.
pub open spec fn prefix_bytes(decoded: Option<Decoded>) -> Option<Seq<u8>> {
    match decoded {
        Some(Ok(bytes)) => Some(bytes@),
        _ => None,
    }
}

/// The prefix that is stored in base64, where there is one that can be
/// decoded.
pub open spec fn stored_prefix(aad_prefix: Option<Seq<char>>) -> Option<Seq<u8>> {
    match aad_prefix {
        Some(b64) => match base64_decoded(b64) {
            Ok(bytes) => Some(bytes),
            Err(_) => None,
        },
        None => None,
    }
}

fn decode_stored(aad_prefix: &Option<String>) -> (r: Option<Decoded>)
    ensures
        prefix_bytes(r) == stored_prefix(text_view(*aad_prefix)),
{
    match aad_prefix {
        Some(b64) => Some(decode_base64(b64.as_str())),
        None => None,
    }
}

/// The prefix that was decoded, empty where there is none or it could not be
/// decoded.
pub fn prefix_or_empty(decoded: Option<Decoded>) -> (r: Vec<u8>)
    ensures
        r@ == match prefix_bytes(decoded) {
            Some(bytes) => bytes,
            None => seq![],
        },
{
    match decoded {
        Some(Ok(bytes)) => bytes,
        _ => Vec::new(),
    }
}

/// The prefix that is stored with an encrypted table, empty where none is, or
/// where it cannot be decoded.
pub fn stored_aad_prefix(aad_prefix: &Option<String>) -> (r: Vec<u8>)
    ensures
        r@ == match stored_prefix(text_view(*aad_prefix)) {
            Some(bytes) => bytes,
            None => seq![],
        },
{
    prefix_or_empty(decode_stored(aad_prefix))
}

/// The prefix that was decoded or, where there is none or it could not be
/// decoded, the one that the storage layer derives, by `table_aad_prefix`, from
/// the table and its first schema revision.
pub fn prefix_or_derived<F: Fn(&str, u64) -> Vec<u8>>(
    decoded: Option<Decoded>,
    table: &str,
    table_aad_prefix: F,
) -> (r: Vec<u8>)
    requires
        forall|t: &str| t@ == table@ ==> #[trigger] call_requires(table_aad_prefix, (t, 1u64)),
    ensures
        match prefix_bytes(decoded) {
            Some(bytes) => r@ == bytes,
            None => gives(table_aad_prefix, table@, 1, r),
        },
{
    match decoded {
        Some(Ok(bytes)) => bytes,
        _ => {
            let prefix = table_aad_prefix(table, 1);
            assert(call_ensures(table_aad_prefix, (table, 1u64), prefix));
            assert(gives(table_aad_prefix, table@, 1, prefix));
            prefix
        },
    }
}

/// The prefix to open an encrypted table with: the one that is stored with it,
/// in base64, so that a table whose schema has evolved is read with the prefix
/// that it was written with; else the one that is derived from the table and
/// its first schema revision.
pub fn encrypted_table_aad<F: Fn(&str, u64) -> Vec<u8>>(
    aad_prefix: &Option<String>,
    table: &str,
    table_aad_prefix: F,
) -> (r: Vec<u8>)
    requires
        forall|t: &str| t@ == table@ ==> #[trigger] call_requires(table_aad_prefix, (t, 1u64)),
    ensures
        match stored_prefix(text_view(*aad_prefix)) {
            Some(bytes) => r@ == bytes,
            None => gives(table_aad_prefix, table@, 1, r),
        },
{
    prefix_or_derived(decode_stored(aad_prefix), table, table_aad_prefix)
}

/// The prefix that a configuration writes out, once it was decoded.
pub fn explicit_aad(decoded: Decoded) -> (r: Result<Vec<u8>>)
    ensures
        match decoded {
            Ok(bytes) => r matches Ok(v) && v@ == bytes@,
            Err(error) => r matches Err(QueryError::DataFusion(m)) && m@
                == "invalid aad_prefix_b64: "@ + error@,
        },
{
    match decoded {
        Ok(bytes) => Ok(bytes),
        Err(error) => {
            let mut message: String = "invalid aad_prefix_b64: ".to_owned();
            message.append(error.as_str());
            Err(QueryError::DataFusion(message))
        },
    }
}

/// What a session is configured to decrypt with.
#[derive(Debug, PartialEq, Eq)]
pub struct IcefallDBEncryptionConfig {
    /// The name of the footer key.
    pub footer_key_id: String,
    /// Comma separated pairs `column=key`; empty where only the footer key is
    /// used.
    pub column_key_ids: String,
    /// The table that the prefix is derived for; empty where it is not known.
    pub table_hint: String,
    /// The schema revision that the prefix is derived for.
    pub schema_id: u64,
    /// The prefix itself, in base64. It is used as it is.
    pub aad_prefix_b64: Option<String>,
}

impl Default for IcefallDBEncryptionConfig {
    fn default() -> (r: IcefallDBEncryptionConfig)
        ensures
            r.footer_key_id@.len() == 0,
            r.column_key_ids@.len() == 0,
            r.table_hint@.len() == 0,
            r.schema_id == 1,
            r.aad_prefix_b64 is None,
    {
        IcefallDBEncryptionConfig {
            footer_key_id: String::new(),
            column_key_ids: String::new(),
            table_hint: String::new(),
            schema_id: 1,
            aad_prefix_b64: None,
        }
    }
}

/// A column with the name of its key.
pub type KeyPair = (Seq<char>, Seq<char>);

/// The views of a list of columns and keys.
pub open spec fn key_pairs(pairs: Seq<(String, String)>) -> Seq<KeyPair> {
    pairs.map_values(|p: (String, String)| (p.0@, p.1@))
}

/// The column and the key that `column=key` names; white space around them
/// does not count.
pub open spec fn parsed_pair(piece: Seq<char>) -> Option<KeyPair> {
    let pair = trimmed(piece);
    if pair.len() == 0 {
        None
    } else {
        match split_once(pair, '=') {
            Some((column, key)) => Some((trimmed(column), trimmed(key))),
            None => None,
        }
    }
}

fn parse_pair(piece: &String) -> (r: Option<(String, String)>)
    ensures
        match parsed_pair(piece@) {
            Some(p) => r matches Some(q) && q.0@ == p.0 && q.1@ == p.1,
            None => r is None,
        },
{
    let pair = trim(piece.as_str());
    if pair.as_str().is_empty() {
        return None;
    }
    match split_text_once(pair.as_str(), '=') {
        Some((column, key)) => Some((trim(column.as_str()), trim(key.as_str()))),
        None => None,
    }
}

/// The key that the pieces give a column: that of the last piece for it.
pub open spec fn named_key(pieces: Seq<Seq<char>>, column: Seq<char>) -> Option<Seq<char>>
    decreases pieces.len(),
{
    if pieces.len() == 0 {
        None
    } else {
        match parsed_pair(pieces.last()) {
            Some((c, key)) if c == column => Some(key),
            _ => named_key(pieces.drop_last(), column),
        }
    }
}

/// The key of a column in a list.
pub open spec fn key_of(pairs: Seq<KeyPair>, column: Seq<char>) -> Option<Seq<char>>
    decreases pairs.len(),
{
    if pairs.len() == 0 {
        None
    } else if pairs[0].0 == column {
        Some(pairs[0].1)
    } else {
        key_of(pairs.drop_first(), column)
    }
}

/// Whether the columns of a list are in order, each listed once.
pub open spec fn sorted_columns(pairs: Seq<KeyPair>) -> bool {
    &&& forall|i: int| 0 <= i < pairs.len() - 1 ==> text_less((#[trigger] pairs[i]).0, pairs[i + 1].0)
    &&& forall|i: int, j: int| 0 <= i < j < pairs.len() ==> pairs[i].0 != pairs[j].0
}

proof fn key_of_is(pairs: Seq<KeyPair>, column: Seq<char>, i: int)
    requires
        0 <= i <= pairs.len(),
        forall|k: int| 0 <= k < i ==> (#[trigger] pairs[k]).0 != column,
        i < pairs.len() ==> pairs[i].0 == column,
    ensures
        key_of(pairs, column) == if i < pairs.len() {
            Some(pairs[i].1)
        } else {
            None
        },
    decreases pairs.len(),
{
    if i > 0 {
        assert(pairs[0].0 != column);
        let rest = pairs.drop_first();
        assert forall|k: int| 0 <= k < i - 1 implies (#[trigger] rest[k]).0 != column by {
            assert(pairs[k + 1].0 != column);
        }
        key_of_is(rest, column, i - 1);
    }
}

proof fn key_of_bounds(pairs: Seq<KeyPair>, column: Seq<char>) -> (i: int)
    ensures
        0 <= i <= pairs.len(),
        forall|k: int| 0 <= k < i ==> (#[trigger] pairs[k]).0 != column,
        i < pairs.len() ==> pairs[i].0 == column,
    decreases pairs.len(),
{
    if pairs.len() == 0 || pairs[0].0 == column {
        0
    } else {
        let rest = pairs.drop_first();
        let i = key_of_bounds(rest, column);
        assert forall|k: int| 0 <= k < i + 1 implies (#[trigger] pairs[k]).0 != column by {
            if k > 0 {
                assert(rest[k - 1].0 != column);
            }
        }
        i + 1
    }
}

/// Sets the key of a column in a list that is in order.
fn set_key(pairs: &mut Vec<(String, String)>, column: String, key: String)
    requires
        sorted_columns(key_pairs(old(pairs)@)),
    ensures
        sorted_columns(key_pairs(final(pairs)@)),
        forall|c: Seq<char>| #[trigger]
            key_of(key_pairs(final(pairs)@), c) == if c == column@ {
                Some(key@)
            } else {
                key_of(key_pairs(old(pairs)@), c)
            },
{
    let ghost before = key_pairs(pairs@);
    let ghost name = column@;
    let ghost value = key@;
    let mut i: usize = 0;
    while i < pairs.len()
        invariant
            i <= pairs@.len(),
            before == key_pairs(pairs@),
            before.len() == pairs@.len(),
            pairs@ == old(pairs)@,
            sorted_columns(before),
            name == column@,
            value == key@,
            forall|k: int| 0 <= k < i ==> (#[trigger] before[k]).0 != name,
        decreases pairs@.len() - i,
    {
        assert(before[i as int].0 == pairs@[i as int].0@);
        if pairs[i].0 == column {
            pairs.set(i, (column, key));
            let ghost after = key_pairs(pairs@);
            proof {
                assert(after =~= before.update(i as int, (name, value)));
                assert forall|c: Seq<char>| #[trigger] key_of(after, c) == if c == name {
                    Some(value)
                } else {
                    key_of(before, c)
                } by {
                    if c == name {
                        assert forall|k: int| 0 <= k < i implies (#[trigger] after[k]).0 != c by {
                            assert(before[k].0 != name);
                        }
                        key_of_is(after, c, i as int);
                    } else {
                        let j = key_of_bounds(before, c);
                        key_of_is(before, c, j);
                        assert forall|k: int| 0 <= k < j implies (#[trigger] after[k]).0 != c by {
                            assert(before[k].0 != c);
                        }
                        key_of_is(after, c, j);
                    }
                }
                assert forall|k: int| 0 <= k < after.len() - 1 implies text_less(
                    (#[trigger] after[k]).0,
                    after[k + 1].0,
                ) by {
                    assert(text_less(before[k].0, before[k + 1].0));
                }
                assert forall|a: int, b: int| 0 <= a < b < after.len() implies after[a].0
                    != after[b].0 by {
                    assert(before[a].0 != before[b].0);
                }
            }
            return;
        }
        i = i + 1;
    }
    let mut at: usize = 0;
    while at < pairs.len() && matches!(
        order_texts(pairs[at].0.as_str(), column.as_str()),
        TextOrder::Before
    )
        invariant
            at <= pairs@.len(),
            before == key_pairs(pairs@),
            before.len() == pairs@.len(),
            pairs@ == old(pairs)@,
            name == column@,
            forall|k: int| 0 <= k < at ==> text_less((#[trigger] before[k]).0, name),
        decreases pairs@.len() - at,
    {
        assert(before[at as int].0 == pairs@[at as int].0@);
        at = at + 1;
    }
    proof {
        if at < before.len() {
            assert(before[at as int].0 == pairs@[at as int].0@);
            assert(before[at as int].0 != name);
            assert(text_less(name, before[at as int].0)) by {
                text_order_total(name, before[at as int].0);
            }
        }
    }
    pairs.insert(at, (column, key));
    let ghost after = key_pairs(pairs@);
    proof {
        assert(after =~= before.insert(at as int, (name, value)));
        assert forall|c: Seq<char>| #[trigger] key_of(after, c) == if c == name {
            Some(value)
        } else {
            key_of(before, c)
        } by {
            if c == name {
                assert forall|k: int| 0 <= k < at implies (#[trigger] after[k]).0 != c by {
                    assert(before[k].0 != name);
                }
                key_of_is(after, c, at as int);
            } else {
                let j = key_of_bounds(before, c);
                key_of_is(before, c, j);
                let moved = if j < at {
                    j
                } else {
                    j + 1
                };
                assert forall|k: int| 0 <= k < moved implies (#[trigger] after[k]).0 != c by {
                    if k < at {
                        assert(before[k].0 != c);
                    } else if k > at {
                        assert(before[k - 1].0 != c);
                    }
                }
                key_of_is(after, c, moved);
            }
        }
        assert forall|k: int| 0 <= k < after.len() - 1 implies text_less(
            (#[trigger] after[k]).0,
            after[k + 1].0,
        ) by {
            if k + 1 < at {
                assert(text_less(before[k].0, before[k + 1].0));
            } else if k > at {
                assert(text_less(before[k - 1].0, before[k].0));
            } else if k + 1 == at {
                assert(text_less(before[k].0, name));
            }
        }
        assert forall|a: int, b: int| 0 <= a < b < after.len() implies after[a].0
            != after[b].0 by {
            let x = if a < at {
                a
            } else {
                a - 1
            };
            let y = if b < at {
                b
            } else {
                b - 1
            };
            if a == at {
                assert(before[y].0 != name);
            } else if b == at {
                assert(before[x].0 != name);
            } else {
                assert(before[x].0 != before[y].0);
            }
        }
    }
}

/// Of two different texts one comes before the other.
proof fn text_order_total(a: Seq<char>, b: Seq<char>)
    ensures
        a != b ==> text_less(a, b) || text_less(b, a),
    decreases a.len(),
{
    if a.len() > 0 && b.len() > 0 {
        if a[0] == b[0] {
            text_order_total(a.drop_first(), b.drop_first());
            if a.drop_first() == b.drop_first() {
                assert(a =~= seq![a[0]] + a.drop_first());
                assert(b =~= seq![b[0]] + b.drop_first());
            }
        }
    } else {
        if a.len() == 0 && b.len() == 0 {
            assert(a =~= b);
        }
    }
}

impl IcefallDBEncryptionConfig {
    /// The encrypted columns with the names of their keys, in the order of the
    /// columns. Pieces that name no pair are skipped; of several for one
    /// column the last counts.
    pub fn parse_column_keys(&self) -> (r: Vec<(String, String)>)
        ensures
            sorted_columns(key_pairs(r@)),
            forall|c: Seq<char>| #[trigger]
                key_of(key_pairs(r@), c) == named_key(split(self.column_key_ids@, ','), c),
    {
        let pieces = split_text(self.column_key_ids.as_str(), ',');
        let ghost all = texts(pieces@);
        let mut out: Vec<(String, String)> = Vec::new();
        let mut i: usize = 0;
        assert(key_pairs(out@) =~= seq![]);
        assert(all.take(0) =~= seq![]);
        while i < pieces.len()
            invariant
                i <= pieces@.len(),
                all == texts(pieces@),
                all.len() == pieces@.len(),
                sorted_columns(key_pairs(out@)),
                forall|c: Seq<char>| #[trigger]
                    key_of(key_pairs(out@), c) == named_key(all.take(i as int), c),
            decreases pieces@.len() - i,
        {
            assert(all.take(i as int + 1).drop_last() =~= all.take(i as int));
            assert(all.take(i as int + 1).last() == pieces@[i as int]@);
            match parse_pair(&pieces[i]) {
                Some((column, key)) => set_key(&mut out, column, key),
                None => {},
            }
            i = i + 1;
        }
        assert(all.take(i as int) =~= all);
        out
    }

    /// The prefix that the configuration gives itself: the one that is written
    /// out, unless it is blank.
    pub open spec fn explicit_prefix(self) -> Option<Seq<char>> {
        match self.aad_prefix_b64 {
            Some(b64) => if trimmed(b64@).len() > 0 {
                Some(trimmed(b64@))
            } else {
                None
            },
            None => None,
        }
    }

    /// The prefix to decrypt with: the one that is written out; else the one
    /// that the storage layer derives, by `table_aad_prefix`, from the table
    /// and its schema revision; else none. It is never made up from the path
    /// of a file: the file holds the prefix that it was written with, and the
    /// reader uses that where none is given.
    pub fn derive_aad<F: Fn(&str, u64) -> Vec<u8>>(&self, table_aad_prefix: F) -> (r: Result<
        Vec<u8>,
    >)
        requires
            forall|table: &str| table@ == self.table_hint@ ==> #[trigger] call_requires(
                table_aad_prefix,
                (table, self.schema_id),
            ),
        ensures
            match self.explicit_prefix() {
                Some(b64) => match base64_decoded(b64) {
                    Ok(bytes) => r matches Ok(v) && v@ == bytes,
                    Err(error) => r matches Err(QueryError::DataFusion(m)) && m@
                        == "invalid aad_prefix_b64: "@ + error,
                },
                None => if self.table_hint@.len() > 0 {
                    r matches Ok(v) && gives(
                        table_aad_prefix,
                        self.table_hint@,
                        self.schema_id,
                        v,
                    )
                } else {
                    r matches Ok(v) && v@.len() == 0
                },
            },
    {
        match &self.aad_prefix_b64 {
            Some(b64) => {
                let b64 = trim(b64.as_str());
                if !b64.as_str().is_empty() {
                    return explicit_aad(decode_base64(b64.as_str()));
                }
            },
            None => {},
        }
        if !self.table_hint.as_str().is_empty() {
            let table = self.table_hint.as_str();
            let prefix = table_aad_prefix(table, self.schema_id);
            assert(call_ensures(table_aad_prefix, (table, self.schema_id), prefix));
            assert(gives(table_aad_prefix, self.table_hint@, self.schema_id, prefix));
            return Ok(prefix);
        }
        Ok(Vec::new())
    }
}

/// Whether `f` gives `v` for a table and a schema revision.
pub open spec fn gives<F: Fn(&str, u64) -> Vec<u8>>(
    f: F,
    table: Seq<char>,
    schema_id: u64,
    v: Vec<u8>,
) -> bool {
    exists|t: &str| t@ == table && #[trigger] call_ensures(f, (t, schema_id), v)
}

/// The value of an option in a list: that of the first one of the name.
pub open spec fn option_value(options: Seq<KeyPair>, name: Seq<char>) -> Option<Seq<char>> {
    key_of(options, name)
}

/// The namespace under which options may be given.
pub open spec fn namespaced(name: Seq<char>) -> Seq<char> {
    "icefalldb.encryption."@ + name
}

/// The value of an option, by its bare name or under the namespace.
pub open spec fn factory_option(options: Seq<KeyPair>, name: Seq<char>) -> Option<Seq<char>> {
    match option_value(options, name) {
        Some(v) => Some(v),
        None => option_value(options, namespaced(name)),
    }
}

fn find_option(options: &Vec<(String, String)>, name: &String) -> (r: Option<String>)
    ensures
        text_view(r) == option_value(key_pairs(options@), name@),
{
    let ghost all = key_pairs(options@);
    let mut i: usize = 0;
    while i < options.len()
        invariant
            i <= options@.len(),
            all == key_pairs(options@),
            all.len() == options@.len(),
            forall|k: int| 0 <= k < i ==> (#[trigger] all[k]).0 != name@,
        decreases options@.len() - i,
    {
        assert(all[i as int] == (options@[i as int].0@, options@[i as int].1@));
        if options[i].0 == *name {
            proof {
                key_of_is(all, name@, i as int);
            }
            return Some(options[i].1.clone());
        }
        i = i + 1;
    }
    proof {
        key_of_is(all, name@, i as int);
    }
    None
}

fn get_option(options: &Vec<(String, String)>, name: &str) -> (r: Option<String>)
    ensures
        text_view(r) == factory_option(key_pairs(options@), name@),
{
    let bare: String = name.to_owned();
    match find_option(options, &bare) {
        Some(v) => Some(v),
        None => {
            let mut long: String = "icefalldb.encryption.".to_owned();
            long.append(name);
            find_option(options, &long)
        },
    }
}

/// The value of an option, empty where it is not given.
pub open spec fn option_or_empty(options: Seq<KeyPair>, name: Seq<char>) -> Seq<char> {
    match factory_option(options, name) {
        Some(v) => v,
        None => seq![],
    }
}

fn get_or_empty(options: &Vec<(String, String)>, name: &str) -> (r: String)
    ensures
        r@ == option_or_empty(key_pairs(options@), name@),
{
    match get_option(options, name) {
        Some(v) => v,
        None => {
            let empty = String::new();
            assert(empty@ =~= seq![]);
            empty
        },
    }
}

/// The schema revision of the options: a number, or 1.
pub open spec fn schema_id_option(options: Seq<KeyPair>) -> u64 {
    match factory_option(options, "schema_id"@) {
        Some(v) => match parsed_u64(trimmed(v)) {
            Some(n) => n,
            None => 1,
        },
        None => 1,
    }
}

/// The configuration that the options of a session give. Each is accepted by
/// its bare name or under `icefalldb.encryption.`.
pub fn parse_factory_options(options: &Vec<(String, String)>) -> (r: IcefallDBEncryptionConfig)
    ensures
        r.footer_key_id@ == option_or_empty(key_pairs(options@), "footer_key_id"@),
        r.column_key_ids@ == option_or_empty(key_pairs(options@), "column_key_ids"@),
        r.table_hint@ == option_or_empty(key_pairs(options@), "table_hint"@),
        r.schema_id == schema_id_option(key_pairs(options@)),
        text_view(r.aad_prefix_b64) == factory_option(key_pairs(options@), "aad_prefix_b64"@),
{
    let schema_id: u64 = match get_option(options, "schema_id") {
        Some(v) => {
            let number = trim(v.as_str());
            match parse_u64(number.as_str()) {
                Some(n) => n,
                None => 1,
            }
        },
        None => 1,
    };
    IcefallDBEncryptionConfig {
        footer_key_id: get_or_empty(options, "footer_key_id"),
        column_key_ids: get_or_empty(options, "column_key_ids"),
        table_hint: get_or_empty(options, "table_hint"),
        schema_id,
        aad_prefix_b64: get_option(options, "aad_prefix_b64"),
    }
}

/// What the Parquet reader is to decrypt with.
#[derive(Debug, PartialEq, Eq)]
pub struct DecryptionPlan {
    pub footer_key: Vec<u8>,
    /// The keys of the encrypted columns that are read.
    pub column_keys: Vec<(String, Vec<u8>)>,
    /// The prefix that binds the file to its table, where it is known.
    pub aad_prefix: Option<Vec<u8>>,
    /// Whether the signature of the footer is verified.
    pub verify_footer: bool,
}

/// What came of fetching the footer key.
#[derive(Debug, PartialEq, Eq)]
pub enum FooterOutcome {
    /// Here it is: fetch the keys of the columns next.
    Key(Vec<u8>),
    /// It is missing, and not needed: read with this.
    Unverified(DecryptionPlan),
}

/// Finds the keys that a query of an encrypted table needs. Keys of columns
/// that are not read are never asked for.
#[derive(Debug, PartialEq, Eq)]
pub struct EncryptionKeyResolver {
    pub footer_key_id: String,
    /// The encrypted columns with the names of their keys; empty where the
    /// footer key encrypts every column.
    pub column_key_ids: Vec<(String, String)>,
    pub aad: Vec<u8>,
    pub plaintext_footer: bool,
}

impl EncryptionKeyResolver {
    pub fn new(
        footer_key_id: String,
        column_key_ids: Vec<(String, String)>,
        aad: Vec<u8>,
        plaintext_footer: bool,
    ) -> (r: EncryptionKeyResolver)
        ensures
            r.footer_key_id == footer_key_id,
            r.column_key_ids == column_key_ids,
            r.aad == aad,
            r.plaintext_footer == plaintext_footer,
    {
        EncryptionKeyResolver { footer_key_id, column_key_ids, aad, plaintext_footer }
    }

    /// Whether the footers of the table are plaintext.
    pub fn plaintext_footer(&self) -> (r: bool)
        ensures
            r == self.plaintext_footer,
    {
        self.plaintext_footer
    }

    /// The name of the key of an encrypted column.
    pub open spec fn key_name(self, column: Seq<char>) -> Option<Seq<char>> {
        key_of(key_pairs(self.column_key_ids@), column)
    }

    /// Whether a query that reads these columns needs a key: one of them is
    /// encrypted or, where the footer key encrypts all columns, any is read.
    pub open spec fn needs_key(self, needed: Seq<Seq<char>>) -> bool {
        if self.column_key_ids@.len() == 0 {
            needed.len() > 0
        } else {
            exists|i: int| 0 <= i < needed.len() && self.key_name(#[trigger] needed[i]) is Some
        }
    }

    fn find_key_name(&self, column: &String) -> (r: Option<String>)
        ensures
            text_view(r) == self.key_name(column@),
    {
        find_option(&self.column_key_ids, column)
    }

    /// Decides whether a query that reads these columns needs a key.
    pub fn needs_any_encrypted_column(&self, needed_columns: &Vec<String>) -> (r: bool)
        ensures
            r == self.needs_key(texts(needed_columns@)),
    {
        let ghost needed = texts(needed_columns@);
        assert(needed.len() == needed_columns@.len());
        if self.column_key_ids.len() == 0 {
            return needed_columns.len() > 0;
        }
        let mut i: usize = 0;
        while i < needed_columns.len()
            invariant
                i <= needed_columns@.len(),
                needed == texts(needed_columns@),
                needed.len() == needed_columns@.len(),
                self.column_key_ids@.len() > 0,
                forall|k: int| 0 <= k < i ==> self.key_name(#[trigger] needed[k]) is None,
            decreases needed_columns@.len() - i,
        {
            assert(needed[i as int] == needed_columns@[i as int]@);
            if self.find_key_name(&needed_columns[i]).is_some() {
                assert(self.key_name(needed[i as int]) is Some);
                return true;
            }
            i = i + 1;
        }
        false
    }

    /// The prefix, where it is known.
    pub open spec fn known_prefix(self) -> Option<Seq<u8>> {
        if self.aad@.len() == 0 {
            None
        } else {
            Some(self.aad@)
        }
    }

    fn prefix(&self) -> (r: Option<Vec<u8>>)
        ensures
            bytes_view(r) == self.known_prefix(),
    {
        if self.aad.len() == 0 {
            None
        } else {
            let copy = self.aad.clone();
            assert(copy@ =~= self.aad@);
            Some(copy)
        }
    }

    /// Whether `r` is what to do with what came of fetching the footer key, for a
    /// query that reads these columns.
    pub open spec fn decides_on_footer(
        self,
        needed: Seq<Seq<char>>,
        fetched: core::result::Result<Vec<u8>, CoreError>,
        r: Result<FooterOutcome>,
    ) -> bool {
        match fetched {
            Ok(key) => r matches Ok(FooterOutcome::Key(k)) && k == key,
            Err(error) => if self.plaintext_footer && !self.needs_key(needed)
                && error is EncryptionKeyNotFound {
                r matches Ok(FooterOutcome::Unverified(plan)) && {
                    &&& !plan.verify_footer
                    &&& plan.footer_key@ == Seq::new(16, |i: int| 0u8)
                    &&& plan.column_keys@.len() == 0
                    &&& bytes_view(plan.aad_prefix) == self.known_prefix()
                }
            } else {
                r matches Err(QueryError::Core(e)) && e == error
            },
        }
    }

    /// Decides what to do with what came of fetching the footer key.
    ///
    /// Where the footers are plaintext and no encrypted column is read, a
    /// missing key does no harm: the file is read with a key that stands for
    /// none, and the signature is not verified. This goes by the failure to
    /// find the key, never by its bytes: a key of zeros that was found is a key
    /// like any other.
    pub fn footer_fetched(
        &self,
        needed_columns: &Vec<String>,
        fetched: core::result::Result<Vec<u8>, CoreError>,
    ) -> (r: Result<FooterOutcome>)
        ensures
            self.decides_on_footer(texts(needed_columns@), fetched, r),
    {
        match fetched {
            Ok(key) => Ok(FooterOutcome::Key(key)),
            Err(error) => {
                let missing = matches!(error, CoreError::EncryptionKeyNotFound(_));
                if self.plaintext_footer && missing && !self.needs_any_encrypted_column(
                    needed_columns,
                ) {
                    let zeros: Vec<u8> = vec![0u8; 16];
                    assert(zeros@ =~= Seq::new(16, |i: int| 0u8));
                    Ok(
                        FooterOutcome::Unverified(
                            DecryptionPlan {
                                footer_key: zeros,
                                column_keys: Vec::new(),
                                aad_prefix: self.prefix(),
                                verify_footer: false,
                            },
                        ),
                    )
                } else {
                    Err(QueryError::Core(error))
                }
            },
        }
    }

    /// The columns among the first `n` that are encrypted, with the names of
    /// their keys.
    pub open spec fn wanted_keys(self, needed: Seq<Seq<char>>, n: int) -> Seq<KeyPair>
        decreases n,
    {
        if n <= 0 {
            seq![]
        } else {
            let front = self.wanted_keys(needed, n - 1);
            match self.key_name(needed[n - 1]) {
                Some(key) => front.push((needed[n - 1], key)),
                None => front,
            }
        }
    }

    /// The keys to fetch for the columns of a query: one for each that is
    /// encrypted.
    pub fn column_keys_to_fetch(&self, needed_columns: &Vec<String>) -> (r: Vec<(String, String)>)
        ensures
            key_pairs(r@) == self.wanted_keys(
                texts(needed_columns@),
                needed_columns@.len() as int,
            ),
    {
        let ghost needed = texts(needed_columns@);
        let mut out: Vec<(String, String)> = Vec::new();
        let mut i: usize = 0;
        assert(key_pairs(out@) =~= seq![]);
        while i < needed_columns.len()
            invariant
                i <= needed_columns@.len(),
                needed == texts(needed_columns@),
                needed.len() == needed_columns@.len(),
                key_pairs(out@) == self.wanted_keys(needed, i as int),
            decreases needed_columns@.len() - i,
        {
            assert(needed[i as int] == needed_columns@[i as int]@);
            match self.find_key_name(&needed_columns[i]) {
                Some(key) => {
                    let ghost before = key_pairs(out@);
                    let ghost pair = (needed_columns@[i as int]@, key@);
                    out.push((needed_columns[i].clone(), key));
                    assert(key_pairs(out@) =~= before.push(pair));
                },
                None => {},
            }
            i = i + 1;
        }
        out
    }

    /// What to decrypt with, once the keys have been fetched. The signature of
    /// the footer is verified.
    pub fn plan(&self, footer_key: Vec<u8>, column_keys: Vec<(String, Vec<u8>)>) -> (r:
        DecryptionPlan)
        ensures
            r.footer_key == footer_key,
            r.column_keys == column_keys,
            bytes_view(r.aad_prefix) == self.known_prefix(),
            r.verify_footer,
    {
        DecryptionPlan { footer_key, column_keys, aad_prefix: self.prefix(), verify_footer: true }
    }
}

/// The view of optional bytes.
pub open spec fn bytes_view(bytes: Option<Vec<u8>>) -> Option<Seq<u8>> {
    match bytes {
        Some(b) => Some(b@),
        None => None,
    }
}

proof fn wanted_keys_bounds(
    resolver: EncryptionKeyResolver,
    needed: Seq<Seq<char>>,
    n: int,
    column: Seq<char>,
    key: Seq<char>,
)
    requires
        0 <= n <= needed.len(),
    ensures
        resolver.wanted_keys(needed, n).contains((column, key)) <==> needed.take(n).contains(column)
            && resolver.key_name(column) == Some(key),
    decreases n,
{
    let all = resolver.wanted_keys(needed, n);
    if n > 0 {
        wanted_keys_bounds(resolver, needed, n - 1, column, key);
        let front = resolver.wanted_keys(needed, n - 1);
        let shorter = needed.take(n - 1);
        let longer = needed.take(n);
        assert(longer[n - 1] == needed[n - 1]);
        if shorter.contains(column) {
            assert(longer[shorter.index_of(column)] == column);
        }
        if longer.contains(column) && column != needed[n - 1] {
            assert(shorter[longer.index_of(column)] == column);
        }
        if front.contains((column, key)) {
            assert(all[front.index_of((column, key))] == (column, key));
        }
        match resolver.key_name(needed[n - 1]) {
            Some(k) => {
                assert(all[front.len() as int] == (needed[n - 1], k));
                if all.contains((column, key)) && (column, key) != (needed[n - 1], k) {
                    assert(front[all.index_of((column, key))] == (column, key));
                }
            },
            None => {},
        }
    } else {
        assert(all =~= seq![]);
        assert(needed.take(0) =~= seq![]);
    }
}

/// The keys that are fetched are exactly those of the encrypted columns that
/// the query reads: no key is asked for that is not needed.
pub proof fn only_needed_keys_are_fetched(
    resolver: EncryptionKeyResolver,
    needed: Seq<Seq<char>>,
    column: Seq<char>,
    key: Seq<char>,
)
    ensures
        resolver.wanted_keys(needed, needed.len() as int).contains((column, key)) <==> (
        needed.contains(column) && resolver.key_name(column) == Some(key)),
{
    wanted_keys_bounds(resolver, needed, needed.len() as int, column, key);
    assert(needed.take(needed.len() as int) =~= needed);
}

/// A query that may go without the footer key fetches no key at all.
pub proof fn unverified_reads_fetch_no_key(resolver: EncryptionKeyResolver, needed: Seq<Seq<char>>)
    requires
        !resolver.needs_key(needed),
        resolver.column_key_ids@.len() > 0,
    ensures
        resolver.wanted_keys(needed, needed.len() as int).len() == 0,
{
    no_wanted_keys(resolver, needed, needed.len() as int);
}

proof fn no_wanted_keys(resolver: EncryptionKeyResolver, needed: Seq<Seq<char>>, n: int)
    requires
        !resolver.needs_key(needed),
        resolver.column_key_ids@.len() > 0,
        0 <= n <= needed.len(),
    ensures
        resolver.wanted_keys(needed, n).len() == 0,
    decreases n,
{
    if n > 0 {
        no_wanted_keys(resolver, needed, n - 1);
        assert(resolver.key_name(needed[n - 1]) is None);
    }
}

/// The key of a column is that of the first pair for it; without a pair for it,
/// a column has no key.
pub proof fn the_first_pair_counts(pairs: Seq<KeyPair>, column: Seq<char>, i: int)
    requires
        0 <= i <= pairs.len(),
        forall|k: int| 0 <= k < i ==> (#[trigger] pairs[k]).0 != column,
    ensures
        i == pairs.len() ==> key_of(pairs, column) is None,
        i < pairs.len() && pairs[i].0 == column ==> key_of(pairs, column) == Some(pairs[i].1),
{
    if i == pairs.len() || pairs[i].0 == column {
        key_of_is(pairs, column, i);
    }
}

/// Whether a piece is a column and a key with an equals sign between them and
/// these blanks around them.
pub open spec fn is_spaced_pair(
    piece: Seq<char>,
    column: Seq<char>,
    key: Seq<char>,
    a: Seq<char>,
    b: Seq<char>,
    c: Seq<char>,
    d: Seq<char>,
) -> bool {
    &&& is_blank(a) && is_blank(b) && is_blank(c) && is_blank(d)
    &&& piece == a + column + b + seq!['='] + c + key + d
}

/// Whether a piece is a column and a key with an equals sign between them,
/// whatever blanks stand around them.
#[verifier::opaque]
pub open spec fn names_pair(piece: Seq<char>, column: Seq<char>, key: Seq<char>) -> bool {
    exists|a: Seq<char>, b: Seq<char>, c: Seq<char>, d: Seq<char>| #[trigger]
        is_spaced_pair(piece, column, key, a, b, c, d)
}

proof fn blanks_join(a: Seq<char>, b: Seq<char>)
    requires
        is_blank(a),
        is_blank(b),
    ensures
        is_blank(a + b),
{
    let all = a + b;
    assert forall|i: int| 0 <= i < all.len() implies is_space(#[trigger] all[i]) by {
        if i < a.len() {
            assert(is_space(a[i]));
        } else {
            assert(is_space(b[i - a.len()]));
        }
    }
}

/// A character that is no blank is in a text exactly where it is there once the
/// blanks around the text are gone.
proof fn blanks_hold_nothing_else(front: Seq<char>, text: Seq<char>, back: Seq<char>, c: char)
    requires
        is_blank(front),
        is_blank(back),
        !is_space(c),
    ensures
        (front + text + back).contains(c) <==> text.contains(c),
{
    let all = front + text + back;
    if all.contains(c) {
        let i = all.index_of(c);
        let at = i - front.len();
        if i < front.len() {
            assert(is_space(front[i]));
        } else if at >= text.len() {
            assert(is_space(back[at - text.len()]));
        } else {
            assert(text[at] == c);
        }
    }
    if text.contains(c) {
        let at = text.index_of(c);
        assert(all[front.len() + at] == c);
    }
}

/// A piece names a pair exactly where it holds an equals sign. The column stands
/// before the first one and the key behind it, both without the white space
/// around them.
pub proof fn pairs_are_written_with_an_equals_sign(piece: Seq<char>)
    ensures
        parsed_pair(piece) is Some <==> piece.contains('='),
        parsed_pair(piece) matches Some((column, key)) ==> {
            &&& !column.contains('=')
            &&& column.len() > 0 ==> !is_space(column[0]) && !is_space(column.last())
            &&& key.len() > 0 ==> !is_space(key[0]) && !is_space(key.last())
            &&& names_pair(piece, column, key)
        },
{
    let pair = trimmed(piece);
    only_white_space_is_trimmed(piece);
    let (front, back) = choose|front: Seq<char>, back: Seq<char>|
        is_blank(front) && is_blank(back) && piece == #[trigger] (front + pair + back);
    blanks_hold_nothing_else(front, pair, back, '=');
    the_first_separator_splits(pair, '=');
    match split_once(pair, '=') {
        Some((left, right)) => {
            assert(pair[left.len() as int] == '=');
            assert(pair.len() > 0);
            spaced_pair(piece, front, left, right, back);
            assert(parsed_pair(piece) == Some((trimmed(left), trimmed(right))));
        },
        None => {
            assert(parsed_pair(piece) is None);
        },
    }
}

proof fn spaced_pair(
    piece: Seq<char>,
    front: Seq<char>,
    left: Seq<char>,
    right: Seq<char>,
    back: Seq<char>,
)
    requires
        is_blank(front),
        is_blank(back),
        piece == front + (left.push('=') + right) + back,
        !left.contains('='),
    ensures
        !trimmed(left).contains('='),
        trimmed(left).len() > 0 ==> !is_space(trimmed(left)[0]) && !is_space(trimmed(left).last()),
        trimmed(right).len() > 0 ==> !is_space(trimmed(right)[0]) && !is_space(
            trimmed(right).last(),
        ),
        names_pair(piece, trimmed(left), trimmed(right)),
{
    only_white_space_is_trimmed(left);
    only_white_space_is_trimmed(right);
    let column = trimmed(left);
    let key = trimmed(right);
    let (f, b) = choose|f: Seq<char>, b: Seq<char>|
        is_blank(f) && is_blank(b) && left == #[trigger] (f + column + b);
    let (c, g) = choose|c: Seq<char>, g: Seq<char>|
        is_blank(c) && is_blank(g) && right == #[trigger] (c + key + g);
    blanks_hold_nothing_else(f, column, b, '=');
    blanks_join(front, f);
    blanks_join(g, back);
    assert(piece =~= (front + f) + column + b + seq!['='] + c + key + (g + back));
    reveal(names_pair);
    assert(is_spaced_pair(piece, column, key, front + f, b, c, g + back));
}

/// Of the pieces that name a column the last one gives its key; a column that no
/// piece names has none.
pub proof fn the_last_piece_counts(pieces: Seq<Seq<char>>, column: Seq<char>, i: int)
    requires
        -1 <= i < pieces.len(),
        forall|k: int|
            i < k < pieces.len() ==> (parsed_pair(#[trigger] pieces[k]) matches Some(p) ==> p.0
                != column),
    ensures
        i == -1 ==> named_key(pieces, column) is None,
        i >= 0 ==> (parsed_pair(pieces[i]) matches Some((c, key)) ==> (c == column ==> named_key(
            pieces,
            column,
        ) == Some(key))),
    decreases pieces.len(),
{
    let n = pieces.len() - 1;
    if i < n {
        let front = pieces.drop_last();
        assert(pieces[n] == pieces.last());
        assert forall|k: int| i < k < front.len() implies (parsed_pair(
            #[trigger] front[k],
        ) matches Some(p) ==> p.0 != column) by {
            assert(front[k] == pieces[k]);
        }
        the_last_piece_counts(front, column, i);
        if i >= 0 {
            assert(front[i] == pieces[i]);
        }
    }
}

/// An option is found by its bare name and, where there is none of that name,
/// behind `icefalldb.encryption.`; of several the first counts.
pub proof fn options_may_be_namespaced(options: Seq<KeyPair>, name: Seq<char>, i: int)
    requires
        0 <= i < options.len(),
    ensures
        options[i].0 == name && (forall|k: int| 0 <= k < i ==> (#[trigger] options[k]).0 != name)
            ==> factory_option(options, name) == Some(options[i].1),
        options[i].0 == "icefalldb.encryption."@ + name && (forall|k: int|
            0 <= k < i ==> (#[trigger] options[k]).0 != "icefalldb.encryption."@ + name) && (forall|
            k: int,
        |
            0 <= k < options.len() ==> (#[trigger] options[k]).0 != name) ==> factory_option(
            options,
            name,
        ) == Some(options[i].1),
{
    let long = "icefalldb.encryption."@ + name;
    if options[i].0 == name && (forall|k: int| 0 <= k < i ==> (#[trigger] options[k]).0 != name) {
        the_first_pair_counts(options, name, i);
    }
    if options[i].0 == long && (forall|k: int| 0 <= k < i ==> (#[trigger] options[k]).0 != long) && (
    forall|k: int| 0 <= k < options.len() ==> (#[trigger] options[k]).0 != name) {
        the_first_pair_counts(options, long, i);
        the_first_pair_counts(options, name, options.len() as int);
    }
}

/// An option that is given under neither name has no value, and counts as the
/// empty text.
pub proof fn options_may_be_left_out(options: Seq<KeyPair>, name: Seq<char>)
    requires
        forall|k: int|
            0 <= k < options.len() ==> (#[trigger] options[k]).0 != name && options[k].0
                != "icefalldb.encryption."@ + name,
    ensures
        factory_option(options, name) is None,
        option_or_empty(options, name).len() == 0,
        name == "schema_id"@ ==> schema_id_option(options) == 1,
{
    the_first_pair_counts(options, name, options.len() as int);
    the_first_pair_counts(options, "icefalldb.encryption."@ + name, options.len() as int);
}

/// The schema revision is the number that the option writes in decimal, with
/// white space or a plus sign before it; anything else counts as 1.
pub proof fn schema_ids_are_numerals(options: Seq<KeyPair>, digits: Seq<char>)
    requires
        factory_option(options, "schema_id"@) matches Some(v) && (trimmed(v) == digits || trimmed(v)
            == seq!['+'] + digits),
    ensures
        is_numeral(digits) && numeral(digits) <= u64::MAX ==> schema_id_option(options) == numeral(
            digits,
        ),
        !is_numeral(digits) && !(digits.len() > 0 && digits[0] == '+') ==> schema_id_option(options)
            == 1,
{
    let text = trimmed(factory_option(options, "schema_id"@)->0);
    numbers_are_read_from_numerals(text);
    assert((seq!['+'] + digits).drop_first() =~= digits);
    if is_numeral(digits) {
        assert(digits.len() > 0);
        assert(digit_of(digits[0]) >= 0);
        assert(digits[0] != '+');
    }
}

/// A prefix that is written out counts unless it is blank, without the white
/// space around it.
pub proof fn blank_prefixes_do_not_count(config: IcefallDBEncryptionConfig)
    ensures
        match config.explicit_prefix() {
            Some(b64) => {
                &&& b64.len() > 0 && !is_space(b64[0]) && !is_space(b64.last())
                &&& config.aad_prefix_b64 matches Some(text) && exists|
                    front: Seq<char>,
                    back: Seq<char>,
                |
                    is_blank(front) && is_blank(back) && text@ == #[trigger] (front + b64 + back)
            },
            None => config.aad_prefix_b64 matches Some(text) ==> is_blank(text@),
        },
{
    match config.aad_prefix_b64 {
        Some(text) => {
            only_white_space_is_trimmed(text@);
            let core = trimmed(text@);
            let (front, back) = choose|front: Seq<char>, back: Seq<char>|
                is_blank(front) && is_blank(back) && text@ == #[trigger] (front + core + back);
            if core.len() == 0 {
                assert(text@ =~= front + back);
            }
        },
        None => {},
    }
}

proof fn wanted_columns(resolver: EncryptionKeyResolver, needed: Seq<Seq<char>>, n: int)
    requires
        0 <= n <= needed.len(),
    ensures
        resolver.wanted_keys(needed, n).map_values(|p: KeyPair| p.0) == needed.take(n).filter(
            |c: Seq<char>| resolver.key_name(c) is Some,
        ),
    decreases n,
{
    reveal(Seq::filter);
    let columns = |p: KeyPair| p.0;
    let encrypted = |c: Seq<char>| resolver.key_name(c) is Some;
    if n > 0 {
        wanted_columns(resolver, needed, n - 1);
        assert(needed.take(n).drop_last() =~= needed.take(n - 1));
        assert(needed.take(n).last() == needed[n - 1]);
        let front = resolver.wanted_keys(needed, n - 1);
        match resolver.key_name(needed[n - 1]) {
            Some(key) => {
                assert(front.push((needed[n - 1], key)).map_values(columns) =~= front.map_values(
                    columns,
                ).push(needed[n - 1]));
            },
            None => {},
        }
    } else {
        assert(needed.take(0) =~= seq![]);
        assert(resolver.wanted_keys(needed, 0).map_values(columns) =~= seq![]);
    }
}

/// The keys are fetched in the order in which the query reads the columns, and a
/// key is needed exactly where one is fetched; where the footer key encrypts all
/// columns, where any is read.
pub proof fn keys_are_fetched_in_order(resolver: EncryptionKeyResolver, needed: Seq<Seq<char>>)
    ensures
        resolver.wanted_keys(needed, needed.len() as int).map_values(|p: KeyPair| p.0)
            == needed.filter(|c: Seq<char>| resolver.key_name(c) is Some),
        resolver.column_key_ids@.len() > 0 ==> (resolver.needs_key(needed) <==> resolver.wanted_keys(
            needed,
            needed.len() as int,
        ).len() > 0),
        resolver.column_key_ids@.len() == 0 ==> (resolver.needs_key(needed) <==> needed.len() > 0),
{
    wanted_columns(resolver, needed, needed.len() as int);
    assert(needed.take(needed.len() as int) =~= needed);
    let wanted = resolver.wanted_keys(needed, needed.len() as int);
    if resolver.column_key_ids@.len() > 0 {
        if resolver.needs_key(needed) {
            let i = choose|i: int|
                0 <= i < needed.len() && resolver.key_name(#[trigger] needed[i]) is Some;
            let key = resolver.key_name(needed[i])->0;
            only_needed_keys_are_fetched(resolver, needed, needed[i], key);
            assert(wanted.contains((needed[i], key)));
        } else {
            no_wanted_keys(resolver, needed, needed.len() as int);
        }
    }
}

/// A file is read without its footer key only where the key is not known, the
/// footer is plaintext, and no encrypted column is read; then nothing is verified
/// and no key of a column is used. A key that was fetched is used as it is, and
/// every other failure is passed on.
pub proof fn a_missing_footer_key_is_seldom_tolerated(
    resolver: EncryptionKeyResolver,
    needed: Seq<Seq<char>>,
    fetched: core::result::Result<Vec<u8>, CoreError>,
    r: Result<FooterOutcome>,
    i: int,
)
    requires
        resolver.decides_on_footer(needed, fetched, r),
    ensures
        r matches Ok(FooterOutcome::Unverified(plan)) ==> {
            &&& resolver.plaintext_footer
            &&& fetched matches Err(CoreError::EncryptionKeyNotFound(_))
            &&& resolver.column_key_ids@.len() == 0 ==> needed.len() == 0
            &&& 0 <= i < needed.len() ==> resolver.key_name(needed[i]) is None
            &&& !plan.verify_footer && plan.column_keys@.len() == 0
            &&& resolver.aad@.len() == 0 ==> plan.aad_prefix is None
            &&& resolver.aad@.len() > 0 ==> (plan.aad_prefix matches Some(p) && p@ == resolver.aad@)
        },
        fetched matches Ok(key) ==> (r matches Ok(FooterOutcome::Key(k)) && k == key),
        r matches Ok(FooterOutcome::Key(k)) ==> (fetched matches Ok(key) && k == key),
        r matches Err(e) ==> (fetched matches Err(error) && e == QueryError::Core(error)),
        (fetched matches Err(CoreError::EncryptionKeyNotFound(_))) && resolver.plaintext_footer
            && needed.len() == 0 ==> (r matches Ok(FooterOutcome::Unverified(_))),
{
    if 0 <= i < needed.len() && (r matches Ok(FooterOutcome::Unverified(_))) {
        assert(!resolver.needs_key(needed));
        if resolver.column_key_ids@.len() == 0 {
            assert(needed.len() == 0);
        }
    }
}

/// The prefix that is stored with a table is what its text decodes to; without a
/// text that can be decoded there is none.
pub proof fn stored_prefixes_are_decoded(aad_prefix: Option<Seq<char>>, decoded: Decoded)
    ensures
        aad_prefix is None ==> stored_prefix(aad_prefix) is None,
        aad_prefix matches Some(b64) ==> match base64_decoded(b64) {
            Ok(bytes) => stored_prefix(aad_prefix) == Some(bytes),
            Err(_) => stored_prefix(aad_prefix) is None,
        },
        prefix_bytes(None) is None,
        decoded matches Ok(bytes) ==> prefix_bytes(Some(decoded)) == Some(bytes@),
        decoded is Err ==> prefix_bytes(Some(decoded)) is None,
{
}

/// The pairs of a list are its columns with their keys, in their order.
pub proof fn pairs_are_columns_and_keys(pairs: Seq<(String, String)>, i: int)
    ensures
        key_pairs(pairs).len() == pairs.len(),
        0 <= i < pairs.len() ==> key_pairs(pairs)[i].0 == pairs[i].0@ && key_pairs(pairs)[i].1
            == pairs[i].1@,
{
}

} // verus!
