//! The tokenizer: source text to a token stream with line tracking.
//! Whitespace delimits tokens; the reserved characters `: ; [ ] " #` always
//! end the current token; `#` starts a comment to the end of the line; `"..."`
//! is a string literal with no escape processing.  A word is classified as an
//! integer, else a float, else a boolean, else an identifier.  The stream
//! always ends with an end-of-input token.

use vstd::prelude::*;

use crate::encoding::{
    tokens_model,
    LineLookup,
    Token,
    TokenModel,
    TokenValue,
    TokenValueModel,
};
use crate::floats::{float_parse, float_parse_exec};
use crate::numbers::{parse_int, parse_int_exec};
use crate::parser::{fault_model, forward, FaultModel, ParseFault};

verus! {

/// Relies on `String::push` of std: appends one character.
pub assume_specification[ String::push ](s: &mut String, ch: char)
    ensures
        final(s)@ == old(s)@.push(ch),
;

// ---------------------------------------------------------------------------
// Character classes
// ---------------------------------------------------------------------------

/// The Unicode white-space characters, as the host's character test knows
/// them.
pub open spec fn is_space(c: char) -> bool {
    c == ' ' || c == '\t' || c == '\n' || c == '\r' || c == '\u{b}' || c == '\u{c}' || c == '\u{85}'
        || c == '\u{a0}' || c == '\u{1680}' || ('\u{2000}' <= c && c <= '\u{200a}') || c
        == '\u{2028}' || c == '\u{2029}' || c == '\u{202f}' || c == '\u{205f}' || c == '\u{3000}'
}

fn is_space_exec(c: char) -> (r: bool)
    ensures
        r == is_space(c),
{
    c == ' ' || c == '\t' || c == '\n' || c == '\r' || c == '\u{b}' || c == '\u{c}' || c == '\u{85}'
        || c == '\u{a0}' || c == '\u{1680}' || (c >= '\u{2000}' && c <= '\u{200a}') || c
        == '\u{2028}' || c == '\u{2029}' || c == '\u{202f}' || c == '\u{205f}' || c == '\u{3000}'
}

/// The reserved characters, which always end the current token.
pub open spec fn is_reserved(c: char) -> bool {
    c == ':' || c == ';' || c == '[' || c == ']' || c == '"' || c == '#'
}

fn is_reserved_exec(c: char) -> (r: bool)
    ensures
        r == is_reserved(c),
{
    c == ':' || c == ';' || c == '[' || c == ']' || c == '"' || c == '#'
}

/// A line break for the purposes of line counting.
pub open spec fn is_break(c: char) -> bool {
    c == '\n' || c == '\r'
}

// ---------------------------------------------------------------------------
// Line tracking
// ---------------------------------------------------------------------------

/// How many line breaks come before position `i`.
pub open spec fn count_breaks(s: Seq<char>, i: int) -> int
    decreases i,
{
    if i <= 0 {
        0
    } else {
        count_breaks(s, i - 1) + if is_break(s[i - 1]) {
            1int
        } else {
            0int
        }
    }
}

/// The start of the line containing position `i`.
pub open spec fn line_start(s: Seq<char>, i: int) -> int
    decreases i,
{
    if i <= 0 {
        0
    } else if is_break(s[i - 1]) {
        i
    } else {
        line_start(s, i - 1)
    }
}

/// The end of the line containing position `i` (the next break, or the end).
pub open spec fn line_end(s: Seq<char>, i: int) -> int
    decreases s.len() - i,
{
    if i >= s.len() {
        s.len() as int
    } else if is_break(s[i]) {
        i
    } else {
        line_end(s, i + 1)
    }
}

/// The text of the line containing position `i`.
pub open spec fn line_text(s: Seq<char>, i: int) -> Seq<char> {
    s.subrange(line_start(s, i), line_end(s, i))
}

/// A line lookup that correctly describes the character sequence: one line
/// number per position, and the text of every position's line.
pub open spec fn line_key_ok(key: LineLookup, s: Seq<char>) -> bool {
    &&& key.lnums@.len() == s.len()
    &&& forall|i: int| 0 <= i < s.len() ==> #[trigger] key.lnums@[i] == count_breaks(s, i)
    &&& forall|i: int|
        0 <= i < s.len() ==> (#[trigger] key.lnums@[i] as int) < key.lines@.len()
            && key.lines@[key.lnums@[i] as int]@ == line_text(s, i)
}

proof fn lemma_line_start_at(s: Seq<char>, a: int, k: int)
    requires
        0 <= a <= k <= s.len(),
        a == 0 || is_break(s[a - 1]),
        forall|m: int| a <= m < k ==> !is_break(#[trigger] s[m]),
    ensures
        line_start(s, k) == a,
    decreases k - a,
{
    if k > a {
        lemma_line_start_at(s, a, k - 1);
    }
}

proof fn lemma_line_end_at(s: Seq<char>, k: int, b: int)
    requires
        0 <= k <= b <= s.len(),
        b == s.len() || is_break(s[b]),
        forall|m: int| k <= m < b ==> !is_break(#[trigger] s[m]),
    ensures
        line_end(s, k) == b,
    decreases b - k,
{
    if k < b {
        lemma_line_end_at(s, k + 1, b);
    }
}

proof fn lemma_count_breaks_stable(s: Seq<char>, k: int, i: int)
    requires
        0 <= k <= i <= s.len(),
        forall|m: int| k <= m < i ==> !is_break(#[trigger] s[m]),
    ensures
        count_breaks(s, i) == count_breaks(s, k),
    decreases i - k,
{
    if k < i {
        lemma_count_breaks_stable(s, k, i - 1);
    }
}

/// Returns the 1-based line number of a position.
pub fn get_lnum(pos: usize, key: &LineLookup) -> (r: usize)
    requires
        pos < key.lnums@.len(),
        key.lnums@[pos as int] < usize::MAX,
    ensures
        r == key.lnums@[pos as int] + 1,
{
    key.lnums[pos] + 1
}

/// Returns the text of the line containing a position.
pub fn get_line(pos: usize, key: &LineLookup) -> (r: String)
    requires
        pos < key.lnums@.len(),
        key.lnums@[pos as int] < key.lines@.len(),
    ensures
        r@ == key.lines@[key.lnums@[pos as int] as int]@,
{
    key.lines[key.lnums[pos]].clone()
}

/// Builds the line lookup for the character sequence: the line number of
/// every position, and each line's text (the last line included, terminated
/// or not).
pub fn build_line_key(chars: &Vec<char>) -> (key: LineLookup)
    ensures
        line_key_ok(key, chars@),
{
    let s = chars;
    let ghost sq = chars@;
    let mut lnums: Vec<usize> = Vec::new();
    let mut lines: Vec<String> = Vec::new();
    let mut buf = String::new();
    let mut line_num: usize = 0;
    let mut start: usize = 0;
    let mut i: usize = 0;
    while i < s.len()
        invariant
            sq == s@,
            i <= sq.len(),
            start <= i,
            lnums@.len() == i,
            line_num == lines@.len(),
            line_num == count_breaks(sq, i as int),
            line_num <= i,
            start == 0 || is_break(sq[start - 1]),
            buf@ == sq.subrange(start as int, i as int),
            forall|m: int| start <= m < i ==> !is_break(#[trigger] sq[m]),
            forall|k: int| 0 <= k < i ==> #[trigger] lnums@[k] == count_breaks(sq, k),
            forall|k: int|
                0 <= k < start ==> (#[trigger] lnums@[k] as int) < lines@.len()
                    && lines@[lnums@[k] as int]@ == line_text(sq, k),
            forall|k: int| start <= k < i ==> #[trigger] lnums@[k] == line_num,
        decreases s.len() - i,
    {
        lnums.push(line_num);
        let c = s[i];
        if c == '\n' || c == '\r' {
            proof {
                assert forall|k: int| start <= k <= i implies line_text(sq, k) == sq.subrange(
                    start as int,
                    i as int,
                ) by {
                    lemma_line_start_at(sq, start as int, k);
                    lemma_line_end_at(sq, k, i as int);
                }
                assert forall|k: int| start <= k <= i implies count_breaks(sq, k)
                    == line_num by {
                    lemma_count_breaks_stable(sq, k, i as int);
                }
            }
            lines.push(buf);
            buf = String::new();
            start = i + 1;
            line_num = line_num + 1;
            proof {
                assert(buf@ =~= sq.subrange(start as int, start as int));
            }
        } else {
            buf.push(c);
            proof {
                assert(buf@ =~= sq.subrange(start as int, i + 1));
            }
        }
        i += 1;
    }
    proof {
        assert forall|k: int| start <= k < i implies line_text(sq, k) == sq.subrange(
            start as int,
            i as int,
        ) by {
            lemma_line_start_at(sq, start as int, k);
            lemma_line_end_at(sq, k, i as int);
        }
        assert forall|k: int| start <= k < i implies count_breaks(sq, k) == line_num by {
            lemma_count_breaks_stable(sq, k, i as int);
        }
    }
    lines.push(buf);
    LineLookup { lnums, lines }
}

// ---------------------------------------------------------------------------
// Scanning
// ---------------------------------------------------------------------------

/// The first non-whitespace position at or after `i`.
pub open spec fn skip_space(s: Seq<char>, i: int) -> int
    decreases s.len() - i,
{
    if i < 0 || i >= s.len() {
        s.len() as int
    } else if is_space(s[i]) {
        skip_space(s, i + 1)
    } else {
        i
    }
}

/// The first break (or the end) at or after `i`.
pub open spec fn scan_to_break(s: Seq<char>, i: int) -> int
    decreases s.len() - i,
{
    if i < 0 || i >= s.len() {
        s.len() as int
    } else if is_break(s[i]) {
        i
    } else {
        scan_to_break(s, i + 1)
    }
}

/// The first double quote (or the end) at or after `i`.
pub open spec fn scan_to_quote(s: Seq<char>, i: int) -> int
    decreases s.len() - i,
{
    if i < 0 || i >= s.len() {
        s.len() as int
    } else if s[i] == '"' {
        i
    } else {
        scan_to_quote(s, i + 1)
    }
}

/// The first whitespace or reserved character (or the end) at or after `i`.
pub open spec fn scan_word(s: Seq<char>, i: int) -> int
    decreases s.len() - i,
{
    if i < 0 || i >= s.len() {
        s.len() as int
    } else if is_space(s[i]) || is_reserved(s[i]) {
        i
    } else {
        scan_word(s, i + 1)
    }
}

/// The classification of a word: a boolean literal, else an integer, else a
/// float, else an identifier.
pub open spec fn classify_word(w: Seq<char>) -> TokenValueModel {
    if w == "true"@ {
        TokenValueModel::True
    } else if w == "false"@ {
        TokenValueModel::False
    } else {
        match parse_int(w) {
            Some(n) => TokenValueModel::Integer(n),
            None => match float_parse(w) {
                Some(b) => TokenValueModel::Float(b),
                None => TokenValueModel::ID(w),
            },
        }
    }
}

/// The 1-based line number of a position, as a token carries it.
pub open spec fn lnum_at(s: Seq<char>, j: int) -> int {
    (count_breaks(s, j) + 1) as usize as isize as int
}

/// The token made at position `j` with the given value.
pub open spec fn token_at(s: Seq<char>, j: int, value: TokenValueModel) -> TokenModel {
    TokenModel { value, lnum: lnum_at(s, j), line: line_text(s, j) }
}

/// The end-of-input token that closes every stream.
pub open spec fn eof_token() -> TokenModel {
    TokenModel { value: TokenValueModel::EOF, lnum: -1, line: Seq::empty() }
}

/// The token stream from position `i` on: whitespace and comments skipped,
/// one token per reserved character, string literal or word, and the
/// end-of-input token last.  An unterminated string literal is the one
/// tokenizing fault.  The positions walk forward (`forward` only guards the
/// recursion measure).
pub open spec fn scan_tokens(s: Seq<char>, i: int) -> Result<Seq<TokenModel>, FaultModel>
    decreases s.len() - i, 1int,
{
    let j0 = skip_space(s, if i < 0 {
        0
    } else {
        i
    });
    let j = if j0 < i {
        i
    } else if j0 > s.len() {
        s.len() as int
    } else {
        j0
    };
    if j >= s.len() {
        Ok(seq![eof_token()])
    } else if s[j] == '#' {
        scan_tokens(s, forward(s.len() as int, j, scan_to_break(s, j + 1)))
    } else if s[j] == '"' {
        let k = scan_to_quote(s, j + 1);
        if k >= s.len() {
            Err(
                fault_model(
                    "unterminated string in source: "@ + s.subrange(
                        j + 1,
                        if k > s.len() {
                            s.len() as int
                        } else {
                            k
                        },
                    ),
                    -1,
                    "EOF"@,
                ),
            )
        } else {
            let t = token_at(s, j, TokenValueModel::Text(s.subrange(j + 1, k)));
            match scan_tokens(s, forward(s.len() as int, j, k + 1)) {
                Err(f) => Err(f),
                Ok(ts) => Ok(seq![t] + ts),
            }
        }
    } else if is_reserved(s[j]) {
        let value = if s[j] == ':' {
            TokenValueModel::Colon
        } else if s[j] == ';' {
            TokenValueModel::Semicolon
        } else if s[j] == '[' {
            TokenValueModel::OpenBracket
        } else {
            TokenValueModel::CloseBracket
        };
        match scan_tokens(s, j + 1) {
            Err(f) => Err(f),
            Ok(ts) => Ok(seq![token_at(s, j, value)] + ts),
        }
    } else {
        let e = forward(s.len() as int, j, scan_word(s, j + 1));
        let t = token_at(s, j, classify_word(s.subrange(j, e)));
        match scan_tokens(s, e) {
            Err(f) => Err(f),
            Ok(ts) => Ok(seq![t] + ts),
        }
    }
}

/// The whole token stream of a source text.
pub open spec fn tokens_of(s: Seq<char>) -> Result<Seq<TokenModel>, FaultModel> {
    scan_tokens(s, 0)
}

// ---------------------------------------------------------------------------
// The executable scanner
// ---------------------------------------------------------------------------

proof fn lemma_count_breaks_bound(s: Seq<char>, i: int)
    requires
        0 <= i,
    ensures
        0 <= count_breaks(s, i) <= i,
    decreases i,
{
    if i > 0 {
        lemma_count_breaks_bound(s, i - 1);
    }
}

fn skip_space_exec(chars: &Vec<char>, i: usize) -> (j: usize)
    requires
        i <= chars@.len(),
    ensures
        j as int == skip_space(chars@, i as int),
        i <= j <= chars@.len(),
    decreases chars@.len() - i,
{
    let mut j = i;
    while j < chars.len() && is_space_exec(chars[j])
        invariant
            i <= j <= chars@.len(),
            skip_space(chars@, i as int) == skip_space(chars@, j as int),
        decreases chars@.len() - j,
    {
        j += 1;
    }
    j
}

fn scan_to_break_exec(chars: &Vec<char>, i: usize) -> (j: usize)
    requires
        i <= chars@.len(),
    ensures
        j as int == scan_to_break(chars@, i as int),
        i <= j <= chars@.len(),
{
    let mut j = i;
    while j < chars.len() && !(chars[j] == '\n' || chars[j] == '\r')
        invariant
            i <= j <= chars@.len(),
            scan_to_break(chars@, i as int) == scan_to_break(chars@, j as int),
        decreases chars@.len() - j,
    {
        j += 1;
    }
    j
}

fn scan_to_quote_exec(chars: &Vec<char>, i: usize) -> (j: usize)
    requires
        i <= chars@.len(),
    ensures
        j as int == scan_to_quote(chars@, i as int),
        i <= j <= chars@.len(),
{
    let mut j = i;
    while j < chars.len() && chars[j] != '"'
        invariant
            i <= j <= chars@.len(),
            scan_to_quote(chars@, i as int) == scan_to_quote(chars@, j as int),
        decreases chars@.len() - j,
    {
        j += 1;
    }
    j
}

fn scan_word_exec(chars: &Vec<char>, i: usize) -> (j: usize)
    requires
        i <= chars@.len(),
    ensures
        j as int == scan_word(chars@, i as int),
        i <= j <= chars@.len(),
{
    let mut j = i;
    while j < chars.len() && !is_space_exec(chars[j]) && !is_reserved_exec(chars[j])
        invariant
            i <= j <= chars@.len(),
            scan_word(chars@, i as int) == scan_word(chars@, j as int),
        decreases chars@.len() - j,
    {
        j += 1;
    }
    j
}

/// Copies a character range into a fresh string.
fn chars_to_string(chars: &Vec<char>, from: usize, to: usize) -> (r: String)
    requires
        from <= to <= chars@.len(),
    ensures
        r@ == chars@.subrange(from as int, to as int),
{
    let mut r = String::new();
    let mut i = from;
    proof {
        assert(r@ =~= chars@.subrange(from as int, from as int));
    }
    while i < to
        invariant
            from <= i <= to <= chars@.len(),
            r@ == chars@.subrange(from as int, i as int),
        decreases to - i,
    {
        r.push(chars[i]);
        proof {
            assert(r@ =~= chars@.subrange(from as int, i + 1));
        }
        i += 1;
    }
    r
}

/// Builds a token at a position, with its line number and line text.
fn make_token(chars: &Vec<char>, key: &LineLookup, j: usize, value: TokenValue) -> (t: Token)
    requires
        line_key_ok(*key, chars@),
        j < chars@.len(),
    ensures
        t@ == token_at(chars@, j as int, value@),
{
    // Binds the character count to a machine word, for the index arithmetic.
    let _len: usize = chars.len();
    proof {
        lemma_count_breaks_bound(chars@, j as int);
    }
    let ln = get_lnum(j, key);
    let lnum: isize = #[verifier::truncate] (ln as isize);
    let line = get_line(j, key);
    Token { value, lnum, line }
}

/// Classifies a word: a boolean literal, else an integer, else a float,
/// else an identifier.
fn classify_word_exec(w: String) -> (v: TokenValue)
    ensures
        v@ == classify_word(w@),
{
    if crate::primitives::str_is(&w, "true") {
        TokenValue::True
    } else if crate::primitives::str_is(&w, "false") {
        TokenValue::False
    } else {
        match parse_int_exec(&w) {
            Some(n) => TokenValue::Integer(n),
            None => match float_parse_exec(&w) {
                Some(b) => TokenValue::Float(b),
                None => TokenValue::ID(w),
            },
        }
    }
}

/// Prepending a token prepends its model.
proof fn lemma_tokens_insert_front(s: Seq<Token>, t: Token)
    ensures
        tokens_model(s.insert(0, t)) == seq![t@] + tokens_model(s),
{
    let post = s.insert(0, t);
    assert forall|j: int| 0 <= j < post.len() implies tokens_model(post)[j] == (seq![t@]
        + tokens_model(s))[j] by {
        if j > 0 {
            assert(post[j] == s[j - 1]);
        } else {
            assert(post[0] == t);
        }
    }
    assert(tokens_model(post) =~= seq![t@] + tokens_model(s));
}

/// Scans the token stream from the given position, prepending the given
/// token to it.
fn rest_after(chars: &Vec<char>, key: &LineLookup, t: Token, next: usize) -> (r: Result<
    Vec<Token>,
    ParseFault,
>)
    requires
        line_key_ok(*key, chars@),
        next <= chars@.len(),
    ensures
        ({
            let m = scan_tokens(chars@, next as int);
            match r {
                Ok(ts) => m matches Ok(rest) && tokens_model(ts@) == seq![t@] + rest,
                Err(f) => m == Err::<Seq<TokenModel>, _>(f@),
            }
        }),
    decreases chars@.len() - next, 1int,
{
    match scan_tokens_exec(chars, key, next) {
        Err(f) => Err(f),
        Ok(mut ts) => {
            let ghost pre = ts@;
            ts.insert(0, t);
            proof {
                lemma_tokens_insert_front(pre, t);
            }
            Ok(ts)
        },
    }
}

/// Scans the token stream from a position on.
#[verifier::spinoff_prover]
fn scan_tokens_exec(chars: &Vec<char>, key: &LineLookup, i: usize) -> (r: Result<
    Vec<Token>,
    ParseFault,
>)
    requires
        line_key_ok(*key, chars@),
        i <= chars@.len(),
    ensures
        ({
            let m = scan_tokens(chars@, i as int);
            match r {
                Ok(ts) => m == Ok::<_, FaultModel>(tokens_model(ts@)),
                Err(f) => m == Err::<Seq<TokenModel>, _>(f@),
            }
        }),
    decreases chars@.len() - i, 0int,
{
    let ghost sq = chars@;
    let j = skip_space_exec(chars, i);
    if j == chars.len() {
        let mut ts: Vec<Token> = Vec::new();
        ts.push(Token { value: TokenValue::EOF, lnum: -1, line: String::new() });
        proof {
            assert(tokens_model(ts@) =~= seq![eof_token()]);
        }
        return Ok(ts);
    } else {
        let c = chars[j];
        if c == '#' {
            let b = scan_to_break_exec(chars, j + 1);
            proof {
                assert(forward(sq.len() as int, j as int, scan_to_break(sq, j + 1)) == b as int);
            }
            return scan_tokens_exec(chars, key, b);
        } else if c == '"' {
            let k = scan_to_quote_exec(chars, j + 1);
            if k == chars.len() {
                let mut msg = String::from_str("unterminated string in source: ");
                let text = chars_to_string(chars, j + 1, k);
                msg.append(text.as_str());
                return Err(crate::parser::parse_error(msg, -1, &String::from_str("EOF")));
            } else {
                let text = chars_to_string(chars, j + 1, k);
                let t = make_token(chars, key, j, TokenValue::Text(text));
                proof {
                    assert(forward(sq.len() as int, j as int, k + 1) == k + 1);
                }
                return rest_after(chars, key, t, k + 1);
            }
        } else if c == ':' {
            let t = make_token(chars, key, j, TokenValue::Colon);
            return rest_after(chars, key, t, j + 1);
        } else if c == ';' {
            let t = make_token(chars, key, j, TokenValue::Semicolon);
            return rest_after(chars, key, t, j + 1);
        } else if c == '[' {
            let t = make_token(chars, key, j, TokenValue::OpenBracket);
            return rest_after(chars, key, t, j + 1);
        } else if c == ']' {
            let t = make_token(chars, key, j, TokenValue::CloseBracket);
            return rest_after(chars, key, t, j + 1);
        } else {
            let e = scan_word_exec(chars, j + 1);
            proof {
                assert(forward(sq.len() as int, j as int, scan_word(sq, j + 1)) == e as int);
            }
            let w = chars_to_string(chars, j, e);
            let t = make_token(chars, key, j, classify_word_exec(w));
            return rest_after(chars, key, t, e);
        }
    }
}

/// Tokenizes a whole source text.  The stream ends with the end-of-input
/// token; an unterminated string literal is the one tokenizing fault.
pub fn tokenize(s: &str) -> (r: Result<Vec<Token>, ParseFault>)
    ensures
        ({
            let m = tokens_of(s@);
            match r {
                Ok(ts) => m == Ok::<_, FaultModel>(tokens_model(ts@)),
                Err(f) => m == Err::<Seq<TokenModel>, _>(f@),
            }
        }),
{
    let n = s.unicode_len();
    let mut chars: Vec<char> = Vec::new();
    let mut i: usize = 0;
    while i < n
        invariant
            i <= n,
            n == s@.len(),
            chars@ == s@.subrange(0, i as int),
        decreases n - i,
    {
        let c = s.get_char(i);
        chars.push(c);
        proof {
            assert(chars@ =~= s@.subrange(0, i + 1));
        }
        i += 1;
    }
    proof {
        assert(chars@ =~= s@);
    }
    let key = build_line_key(&chars);
    scan_tokens_exec(&chars, &key, 0)
}

} // verus!
