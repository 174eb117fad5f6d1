//! The tokens of a SQL text, as far as they are looked at before it is parsed.
//!
//! The parser takes it for granted that `FLUSH RELAY LOGS FOR CHANNEL` is
//! followed by the name of a channel, and panics where it is not. Such a text
//! is found by its tokens, and is not handed to the parser.
use vstd::prelude::*;
use vstd::string::*;

use datafusion_sql::sqlparser::dialect::GenericDialect;
use datafusion_sql::sqlparser::tokenizer::{Token, Tokenizer};

use crate::text::same_text;

verus! {

/// A token. A word is held by the keyword that it is, in upper case, or by
/// `NoKeyword`; a word in quotes is no keyword.
#[derive(Debug, PartialEq, Eq)]
pub enum TokenOf<T> {
    Word(T),
    /// A text in quotes.
    Text,
    Period,
    /// White space or a comment.
    Space,
    Other,
}

pub type SqlToken = TokenOf<String>;

pub type TokenView = TokenOf<Seq<char>>;

impl View for TokenOf<String> {
    type V = TokenOf<Seq<char>>;

    open spec fn view(&self) -> TokenOf<Seq<char>> {
        match *self {
            TokenOf::Word(keyword) => TokenOf::Word(keyword@),
            TokenOf::Text => TokenOf::Text,
            TokenOf::Period => TokenOf::Period,
            TokenOf::Space => TokenOf::Space,
            TokenOf::Other => TokenOf::Other,
        }
    }
}

/// The views of a sequence of tokens.
pub open spec fn token_views(tokens: Seq<SqlToken>) -> Seq<TokenView> {
    tokens.map_values(|t: SqlToken| t@)
}

/// What `Tokenizer::tokenize` makes of a text in the generic dialect: the
/// tokens, or `None` for an error.
pub uninterp spec fn sql_tokens(sql: Seq<char>) -> Option<Seq<TokenView>>;

/// Calls `Tokenizer::tokenize` of `sqlparser`, with the generic dialect, as
/// the parser itself does; what it returns depends on the text alone. A token
/// becomes the one above that it is, and a word the `Debug` text of its
/// keyword.
#[verifier::external_body]
fn tokenize(sql: &str) -> (r: Option<Vec<SqlToken>>)
    ensures
        match r {
            Some(tokens) => sql_tokens(sql@) == Some(token_views(tokens@)),
            None => sql_tokens(sql@) is None,
        },
{
    let tokens = Tokenizer::new(&GenericDialect {  }, sql).tokenize().ok()?;
    let convert = |token: Token| match token {
        Token::Word(word) => TokenOf::Word(format!("{:?}", word.keyword)),
        Token::SingleQuotedString(_) => TokenOf::Text,
        Token::DoubleQuotedString(_) => TokenOf::Text,
        Token::Period => TokenOf::Period,
        Token::Whitespace(_) => TokenOf::Space,
        _ => TokenOf::Other,
    };
    Some(tokens.into_iter().map(convert).collect())
}

/// The first token at place `i` or behind it that is no space.
pub open spec fn next_at(tokens: Seq<TokenView>, i: int) -> int
    decreases tokens.len() - i,
{
    if i >= tokens.len() {
        i
    } else if tokens[i] is Space {
        next_at(tokens, i + 1)
    } else {
        i
    }
}

/// Whether the next token at place `i` or behind it is a keyword.
pub open spec fn keyword_at(tokens: Seq<TokenView>, i: int, keyword: Seq<char>) -> bool {
    let k = next_at(tokens, i);
    k < tokens.len() && tokens[k] == TokenOf::Word(keyword)
}

/// Whether a name starts at place `i` or behind it: identifiers with periods
/// between them.
pub open spec fn name_at(tokens: Seq<TokenView>, i: int) -> bool
    decreases tokens.len() - i,
{
    let k = next_at(tokens, i);
    if i <= k < tokens.len() && (tokens[k] is Word || tokens[k] is Text) {
        let p = next_at(tokens, k + 1);
        if k < p < tokens.len() && tokens[p] is Period {
            name_at(tokens, p + 1)
        } else {
            true
        }
    } else {
        false
    }
}

/// Where the words behind FLUSH start, which may be followed by where it is
/// logged.
pub open spec fn behind_location(tokens: Seq<TokenView>, i: int) -> int {
    if keyword_at(tokens, i, "LOCAL"@) || keyword_at(tokens, i, "NO_WRITE_TO_BINLOG"@) {
        next_at(tokens, i) + 1
    } else {
        i
    }
}

/// Whether `RELAY LOGS FOR CHANNEL` stands at place `i` or behind it, without
/// the name of a channel.
pub open spec fn relay_without_channel(tokens: Seq<TokenView>, i: int) -> bool {
    let relay = next_at(tokens, i);
    let logs = next_at(tokens, relay + 1);
    let by = next_at(tokens, logs + 1);
    let channel = next_at(tokens, by + 1);
    &&& keyword_at(tokens, i, "RELAY"@)
    &&& keyword_at(tokens, relay + 1, "LOGS"@)
    &&& keyword_at(tokens, logs + 1, "FOR"@)
    &&& keyword_at(tokens, by + 1, "CHANNEL"@)
    &&& !name_at(tokens, channel + 1)
}

/// Whether the token at place `i` starts a FLUSH of the relay logs for a
/// channel that it does not name.
pub open spec fn flush_without_channel(tokens: Seq<TokenView>, i: int) -> bool {
    &&& 0 <= i < tokens.len()
    &&& tokens[i] == TokenOf::Word("FLUSH"@)
    &&& relay_without_channel(tokens, behind_location(tokens, i + 1))
}

/// Whether some FLUSH among the tokens is for a channel that it does not name.
pub open spec fn unnamed_channel(tokens: Seq<TokenView>) -> bool {
    exists|i: int| flush_without_channel(tokens, i)
}

/// Whether a text holds a FLUSH for a channel that it does not name.
pub open spec fn flushes_unnamed(sql: Seq<char>) -> bool {
    sql_tokens(sql) matches Some(tokens) && unnamed_channel(tokens)
}

fn next_index(tokens: &Vec<SqlToken>, from: usize) -> (r: usize)
    requires
        from <= tokens@.len(),
    ensures
        r == next_at(token_views(tokens@), from as int),
        from <= r <= tokens@.len(),
{
    let ghost views = token_views(tokens@);
    let mut i: usize = from;
    while i < tokens.len() && matches!(tokens[i], TokenOf::Space)
        invariant
            from <= i <= tokens@.len(),
            views == token_views(tokens@),
            views.len() == tokens@.len(),
            next_at(views, from as int) == next_at(views, i as int),
        decreases tokens@.len() - i,
    {
        assert(views[i as int] == tokens@[i as int]@);
        i = i + 1;
    }
    if i < tokens.len() {
        assert(views[i as int] == tokens@[i as int]@);
    }
    i
}

fn is_keyword(tokens: &Vec<SqlToken>, i: usize, keyword: &str) -> (r: bool)
    ensures
        r == (i < tokens@.len() && token_views(tokens@)[i as int] == TokenOf::Word(keyword@)),
{
    if i >= tokens.len() {
        return false;
    }
    assert(token_views(tokens@)[i as int] == tokens@[i as int]@);
    match &tokens[i] {
        TokenOf::Word(word) => same_text(word.as_str(), keyword),
        _ => false,
    }
}

fn is_name_at(tokens: &Vec<SqlToken>, from: usize) -> (r: bool)
    requires
        from <= tokens@.len(),
    ensures
        r == name_at(token_views(tokens@), from as int),
{
    let ghost views = token_views(tokens@);
    let mut i: usize = from;
    loop
        invariant
            i <= tokens@.len(),
            views == token_views(tokens@),
            views.len() == tokens@.len(),
            name_at(views, from as int) == name_at(views, i as int),
        decreases tokens@.len() - i,
    {
        let k: usize = next_index(tokens, i);
        if k >= tokens.len() {
            return false;
        }
        assert(views[k as int] == tokens@[k as int]@);
        if !matches!(tokens[k], TokenOf::Word(_) | TokenOf::Text) {
            return false;
        }
        let p: usize = next_index(tokens, k + 1);
        if p >= tokens.len() {
            return true;
        }
        assert(views[p as int] == tokens@[p as int]@);
        if !matches!(tokens[p], TokenOf::Period) {
            return true;
        }
        i = p + 1;
    }
}

fn is_relay_without_channel(tokens: &Vec<SqlToken>, from: usize) -> (r: bool)
    requires
        from <= tokens@.len(),
    ensures
        r == relay_without_channel(token_views(tokens@), from as int),
{
    let n: usize = tokens.len();
    assert(n == tokens@.len());
    let relay: usize = next_index(tokens, from);
    if !is_keyword(tokens, relay, "RELAY") {
        return false;
    }
    let logs: usize = next_index(tokens, relay + 1);
    if !is_keyword(tokens, logs, "LOGS") {
        return false;
    }
    let by: usize = next_index(tokens, logs + 1);
    if !is_keyword(tokens, by, "FOR") {
        return false;
    }
    let channel: usize = next_index(tokens, by + 1);
    if !is_keyword(tokens, channel, "CHANNEL") {
        return false;
    }
    !is_name_at(tokens, channel + 1)
}

/// Whether some FLUSH among the tokens is for a channel that it does not name.
pub fn has_unnamed_channel(tokens: &Vec<SqlToken>) -> (r: bool)
    ensures
        r == unnamed_channel(token_views(tokens@)),
{
    let ghost views = token_views(tokens@);
    let mut i: usize = 0;
    while i < tokens.len()
        invariant
            i <= tokens@.len(),
            views == token_views(tokens@),
            views.len() == tokens@.len(),
            forall|k: int| 0 <= k < i ==> !#[trigger] flush_without_channel(views, k),
        decreases tokens@.len() - i,
    {
        if is_keyword(tokens, i, "FLUSH") {
            let k: usize = next_index(tokens, i + 1);
            let located = is_keyword(tokens, k, "LOCAL") || is_keyword(
                tokens,
                k,
                "NO_WRITE_TO_BINLOG",
            );
            let from: usize = if located {
                k + 1
            } else {
                i + 1
            };
            if is_relay_without_channel(tokens, from) {
                assert(flush_without_channel(views, i as int));
                return true;
            }
        }
        assert(!flush_without_channel(views, i as int));
        i = i + 1;
    }
    false
}

/// Whether a text holds a FLUSH for a channel that it does not name, so that
/// it must not be handed to the parser.
pub(crate) fn names_no_channel(sql: &str) -> (r: bool)
    ensures
        r == flushes_unnamed(sql@),
{
    match tokenize(sql) {
        Some(tokens) => has_unnamed_channel(&tokens),
        None => false,
    }
}

/// The next token is the first one that is no space.
pub proof fn the_next_token_is_no_space(tokens: Seq<TokenView>, i: int, k: int)
    requires
        0 <= i <= tokens.len(),
    ensures
        i <= next_at(tokens, i) <= tokens.len(),
        next_at(tokens, i) < tokens.len() ==> !(tokens[next_at(tokens, i)] is Space),
        i <= k < next_at(tokens, i) ==> tokens[k] is Space,
    decreases tokens.len() - i,
{
    if i < tokens.len() && tokens[i] is Space {
        the_next_token_is_no_space(tokens, i + 1, k);
    }
}

/// A name is a word or a text; a period behind it is followed by another name, and
/// spaces before it do not matter.
pub proof fn names_are_parted_by_periods(tokens: Seq<TokenView>, i: int)
    requires
        0 <= i < tokens.len(),
    ensures
        tokens[i] is Space ==> name_at(tokens, i) == name_at(tokens, i + 1),
        tokens[i] is Period || tokens[i] is Other ==> !name_at(tokens, i),
        tokens[i] is Word || tokens[i] is Text ==> {
            let p = next_at(tokens, i + 1);
            if p < tokens.len() && tokens[p] is Period {
                name_at(tokens, i) == name_at(tokens, p + 1)
            } else {
                name_at(tokens, i)
            }
        },
        !name_at(tokens, tokens.len() as int),
{
    the_next_token_is_no_space(tokens, i, i);
    the_next_token_is_no_space(tokens, i + 1, i);
    let k = next_at(tokens, i);
    the_next_token_is_no_space(tokens, k, k);
    if k < tokens.len() {
        the_next_token_is_no_space(tokens, k + 1, k);
    }
}

/// Whether the next word behind place `i` is at place `k`.
pub open spec fn follows(tokens: Seq<TokenView>, i: int, k: int, keyword: Seq<char>) -> bool {
    &&& i < k < tokens.len()
    &&& tokens[k] == TokenOf::Word(keyword)
    &&& forall|j: int| i < j < k ==> (#[trigger] tokens[j]) is Space
}

proof fn next_is(tokens: Seq<TokenView>, i: int, k: int)
    requires
        0 <= i <= k < tokens.len(),
        !(tokens[k] is Space),
        forall|j: int| i <= j < k ==> (#[trigger] tokens[j]) is Space,
    ensures
        next_at(tokens, i) == k,
    decreases k - i,
{
    if i < k {
        assert(tokens[i] is Space);
        next_is(tokens, i + 1, k);
    }
}

/// A FLUSH of the relay logs for a channel is found to name none where no name
/// follows, whatever spaces stand between the words, and whether it says where it is
/// logged or not.
pub proof fn flushes_without_a_channel_are_found(
    tokens: Seq<TokenView>,
    flush: int,
    start: int,
    relay: int,
    logs: int,
    by: int,
    channel: int,
)
    requires
        0 <= flush < tokens.len(),
        tokens[flush] == TokenOf::Word("FLUSH"@),
        start == flush || follows(tokens, flush, start, "LOCAL"@) || follows(
            tokens,
            flush,
            start,
            "NO_WRITE_TO_BINLOG"@,
        ),
        follows(tokens, start, relay, "RELAY"@),
        follows(tokens, relay, logs, "LOGS"@),
        follows(tokens, logs, by, "FOR"@),
        follows(tokens, by, channel, "CHANNEL"@),
        !name_at(tokens, channel + 1),
    ensures
        unnamed_channel(tokens),
{
    reveal_strlit("RELAY");
    reveal_strlit("LOCAL");
    reveal_strlit("NO_WRITE_TO_BINLOG");
    assert("RELAY"@[0] != "LOCAL"@[0]);
    assert("RELAY"@[0] != "NO_WRITE_TO_BINLOG"@[0]);
    next_is(tokens, start + 1, relay);
    next_is(tokens, relay + 1, logs);
    next_is(tokens, logs + 1, by);
    next_is(tokens, by + 1, channel);
    if start > flush {
        next_is(tokens, flush + 1, start);
    }
    assert(behind_location(tokens, flush + 1) == start + 1);
    assert(relay_without_channel(tokens, start + 1));
    assert(flush_without_channel(tokens, flush));
}

/// Only a FLUSH of the relay logs for a channel is refused: the tokens hold every
/// word of it.
pub proof fn only_flushes_are_refused(tokens: Seq<TokenView>)
    requires
        unnamed_channel(tokens),
    ensures
        tokens.contains(TokenOf::Word("FLUSH"@)),
        tokens.contains(TokenOf::Word("RELAY"@)),
        tokens.contains(TokenOf::Word("LOGS"@)),
        tokens.contains(TokenOf::Word("FOR"@)),
        tokens.contains(TokenOf::Word("CHANNEL"@)),
{
    let i = choose|i: int| flush_without_channel(tokens, i);
    let at = behind_location(tokens, i + 1);
    the_next_token_is_no_space(tokens, i + 1, i);
    let relay = next_at(tokens, at);
    the_next_token_is_no_space(tokens, at, at);
    let logs = next_at(tokens, relay + 1);
    the_next_token_is_no_space(tokens, relay + 1, relay);
    let by = next_at(tokens, logs + 1);
    the_next_token_is_no_space(tokens, logs + 1, logs);
    let channel = next_at(tokens, by + 1);
    the_next_token_is_no_space(tokens, by + 1, by);
    assert(tokens[relay] == TokenOf::Word("RELAY"@));
    assert(tokens[logs] == TokenOf::Word("LOGS"@));
    assert(tokens[by] == TokenOf::Word("FOR"@));
    assert(tokens[channel] == TokenOf::Word("CHANNEL"@));
}

} // verus!
