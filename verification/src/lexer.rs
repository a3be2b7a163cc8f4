//! Turning the text of a score into tokens.

use vstd::prelude::*;
use vstd::string::StrSliceExecFns;
use vstd::string::StringExecFns;
use vstd::utf8::encode_utf8;

use crate::decimal::{decimal, push_decimal};
use crate::pattern::{
    digit_run, first_match_text, is_digit, is_name_char, leading_identifier, leading_numeral, name_run,
    text_view, IDENTIFIER_PATTERN, NUMBER_PATTERN,
};
use crate::text::{chars_of, numeral_text};
use crate::token::{char_to_token, symbol_token, SpecTokenType, Token, TokenKind, TokenList};

verus! {

broadcast use vstd::string::group_string_axioms;



/// The length of `s` in UTF-8 bytes, as `str::len` reports it.
pub open spec fn utf8_len(s: Seq<char>) -> usize {
    encode_utf8(s).len() as usize
}

/// A lexing step taken by its view: the token and the byte length of its text.
pub open spec fn lexed_view(r: Result<(Token, usize), String>) -> Result<(SpecTokenType, usize), Seq<char>> {
    match r {
        Ok((t, n)) => Ok((t@, n)),
        Err(e) => Err(e@),
    }
}

/// The identifier token made from the text that the identifier pattern matched.
pub open spec fn identifier_result(found: Option<Seq<char>>) -> Result<(SpecTokenType, usize), Seq<char>> {
    match found {
        Some(m) => Ok((TokenKind::Identifier(m), utf8_len(m))),
        None => Err("not valid identifier 1"@),
    }
}

/// Whether a text that the number pattern can match has no numeric value:
/// the empty text and a lone dot.
pub open spec fn is_valueless_numeral(m: Seq<char>) -> bool {
    m.len() == 0 || (m.len() == 1 && m[0] == '.')
}

/// The number token made from the text that the number pattern matched;
/// a match with no numeric value is an error.
pub open spec fn number_result(found: Option<Seq<char>>) -> Result<(SpecTokenType, usize), Seq<char>> {
    match found {
        Some(m) => if is_valueless_numeral(m) {
            Err("not valid number 3"@)
        } else {
            Ok((TokenKind::Number(m), utf8_len(m)))
        },
        None => Err("not valid number 1"@),
    }
}

/// Makes the identifier token, and its byte length, from the text that the
/// identifier pattern matched; no match is an error.
pub fn identifier_from_match(found: Option<String>) -> (r: Result<(Token, usize), String>)
    ensures
        lexed_view(r) == identifier_result(text_view(found)),
{
    match found {
        Some(m) => {
            let n = m.as_str().len();
            Ok((Token { token_type: TokenKind::Identifier(m) }, n))
        },
        None => Err(String::from_str("not valid identifier 1")),
    }
}

/// Makes the number token, and its byte length, from the text that the
/// number pattern matched; no match, an empty match and a lone dot are
/// errors.
pub fn number_from_match(found: Option<String>) -> (r: Result<(Token, usize), String>)
    ensures
        lexed_view(r) == number_result(text_view(found)),
{
    match found {
        Some(m) => {
            let text = m.as_str();
            let count = text.unicode_len();
            if count == 0 || (count == 1 && text.get_char(0) == '.') {
                return Err(String::from_str("not valid number 3"));
            }
            let n = text.len();
            Ok((Token { token_type: TokenKind::Number(m) }, n))
        },
        None => Err(String::from_str("not valid number 1")),
    }
}

/// Reads the identifier at the start of `input_text`.
pub fn tok_identifier(input_text: &str) -> (r: Result<(Token, usize), String>)
    ensures
        lexed_view(r) == identifier_result(leading_identifier(input_text@)),
{
    let found = first_match_text(IDENTIFIER_PATTERN, input_text);
    identifier_from_match(found)
}

/// Reads the numeral at the start of `input_text`.
pub fn tok_number(input_text: &str) -> (r: Result<(Token, usize), String>)
    ensures
        lexed_view(r) == number_result(Some(leading_numeral(input_text@))),
{
    let found = first_match_text(NUMBER_PATTERN, input_text);
    number_from_match(found)
}

/// Where scanning resumes after a token whose text was read from `start`
/// and is `n` bytes long: the characters of the token are skipped, one per
/// byte, but never past the end; a token of length 0 skips to the end.
pub open spec fn resume_at(len: nat, start: nat, n: nat) -> nat {
    if n == 0 || start + n >= len {
        len
    } else {
        start + n
    }
}

/// The column reported for position `i` on a line that starts at
/// `line_start`, counted modulo 256.
pub open spec fn column(i: nat, line_start: nat) -> nat {
    ((i - line_start) % 256) as nat
}

/// The message that reports an unexpected character.
pub open spec fn position_message(line: nat, col: nat) -> Seq<char> {
    "could not parse at line: "@ + decimal(line) + ", char: "@ + decimal(col)
}

/// Tokenizing `s` from position `i`, on line `line` that starts at
/// `line_start`, after the tokens `acc` were read.
pub open spec fn scan(
    s: Seq<char>,
    i: nat,
    line: nat,
    line_start: nat,
    acc: Seq<SpecTokenType>,
) -> Result<Seq<SpecTokenType>, Seq<char>>
    decreases s.len() - i,
{
    if i >= s.len() {
        Ok(acc)
    } else {
        let c = s[i as int];
        if c == ' ' {
            scan(s, i + 1, line, line_start, acc)
        } else if c == '\n' {
            scan(s, i + 1, line + 1, i + 1, acc.push(TokenKind::NewLine))
        } else if '0' <= c <= '9' {
            match number_result(Some(leading_numeral(s.subrange(i as int, s.len() as int)))) {
                Ok((t, n)) => scan(s, resume_at(s.len(), i, n as nat), line, line_start, acc.push(t)),
                Err(e) => Err(e),
            }
        } else if c == '@' {
            match identifier_result(leading_identifier(s.subrange(i + 1 as int, s.len() as int))) {
                Ok((t, n)) => scan(s, resume_at(s.len(), i + 1, n as nat), line, line_start, acc.push(t)),
                Err(e) => Err(e),
            }
        } else {
            match symbol_token(c) {
                Some(t) => scan(s, i + 1, line, line_start, acc.push(t)),
                None => Err(position_message(line, column(i, line_start))),
            }
        }
    }
}

/// The tokens of the text `s`, or the message of the first error.
pub open spec fn tokenize_spec(s: Seq<char>) -> Result<Seq<SpecTokenType>, Seq<char>> {
    scan(s, 0, 1, 0, Seq::empty())
}

/// A token list taken by its view.
pub open spec fn tokens_view(tokens: Seq<Token>) -> Seq<SpecTokenType> {
    tokens.map_values(|t: Token| t@)
}

/// A tokenizing result taken by its view.
pub open spec fn tokenized_view(r: Result<TokenList, String>) -> Result<Seq<SpecTokenType>, Seq<char>> {
    match r {
        Ok(v) => Ok(tokens_view(v@)),
        Err(e) => Err(e@),
    }
}

fn position_error(line: u128, col: u8) -> (r: String)
    ensures
        r@ == position_message(line as nat, col as nat),
{
    let mut msg = String::from_str("could not parse at line: ");
    push_decimal(&mut msg, line);
    msg.append(", char: ");
    push_decimal(&mut msg, col as u128);
    msg
}

/// Splits the text of a score into tokens. Spaces separate tokens, a line
/// break is a token of its own, `@` starts an identifier, a digit starts a
/// numeral, and each punctuation character of `char_to_token` is a token.
/// Any other character stops the scan with a message that gives its line
/// (counted from 1) and its column on that line (counted from 0, modulo
/// 256). Positions are counted in characters; every character before the
/// one reported is ASCII, so they are byte offsets too.
pub fn tokenize(input: &String) -> (r: Result<TokenList, String>)
    ensures
        tokenized_view(r) == tokenize_spec(input@),
{
    let text = input.as_str();
    let chars = chars_of(text);
    let len = chars.len();
    let mut token_list: TokenList = Vec::new();
    let mut i: usize = 0;
    let mut line_num: u128 = 1;
    let mut line_start: usize = 0;
    assert(tokens_view(token_list@) =~= Seq::<SpecTokenType>::empty());
    while i < len
        invariant
            chars@ == input@,
            text@ == input@,
            len == chars@.len(),
            i <= len,
            line_start <= i,
            line_num <= i + 1,
            scan(input@, i as nat, line_num as nat, line_start as nat, tokens_view(token_list@))
                == tokenize_spec(input@),
        decreases len - i,
    {
        let ghost before = tokens_view(token_list@);
        let c = chars[i];
        if c == ' ' {
            i = i + 1;
        } else if c == '\n' {
            token_list.push(Token { token_type: TokenKind::NewLine });
            assert(tokens_view(token_list@) =~= before.push(TokenKind::NewLine));
            line_num = line_num + 1;
            i = i + 1;
            line_start = i;
        } else if c >= '0' && c <= '9' {
            let rest = text.substring_char(i, len);
            match tok_number(rest) {
                Ok((token, n)) => {
                    let ghost t = token@;
                    token_list.push(token);
                    assert(tokens_view(token_list@) =~= before.push(t));
                    if n == 0 || n >= len - i {
                        i = len;
                    } else {
                        i = i + n;
                    }
                },
                Err(e) => {
                    return Err(e);
                },
            }
        } else if c == '@' {
            let rest = text.substring_char(i + 1, len);
            match tok_identifier(rest) {
                Ok((token, n)) => {
                    let ghost t = token@;
                    token_list.push(token);
                    assert(tokens_view(token_list@) =~= before.push(t));
                    if n == 0 || n >= len - (i + 1) {
                        i = len;
                    } else {
                        i = i + 1 + n;
                    }
                },
                Err(e) => {
                    return Err(e);
                },
            }
        } else {
            match char_to_token(&c) {
                Some(t) => {
                    let ghost tv = t@;
                    token_list.push(Token { token_type: t });
                    assert(tokens_view(token_list@) =~= before.push(tv));
                    i = i + 1;
                },
                None => {
                    let col = ((i - line_start) % 256) as u8;
                    return Err(position_error(line_num, col));
                },
            }
        }
    }
    Ok(token_list)
}

/// Whether `c` is read without the pattern engine: a space, a line break
/// or a punctuation character.
pub open spec fn is_plain_char(c: char) -> bool {
    c == ' ' || c == '\n' || symbol_token(c) is Some
}

/// The tokens that one plain character stands for: none for a space.
pub open spec fn plain_char_tokens(c: char) -> Seq<SpecTokenType> {
    if c == ' ' {
        Seq::empty()
    } else if c == '\n' {
        seq![TokenKind::NewLine]
    } else {
        seq![symbol_token(c)->0]
    }
}

/// The tokens of a text of plain characters, character by character.
pub open spec fn plain_tokens(s: Seq<char>) -> Seq<SpecTokenType>
    decreases s.len(),
{
    if s.len() == 0 {
        Seq::empty()
    } else {
        plain_char_tokens(s[0]) + plain_tokens(s.drop_first())
    }
}

/// The number of line breaks in `t`.
pub open spec fn newline_count(t: Seq<char>) -> nat
    decreases t.len(),
{
    if t.len() == 0 {
        0
    } else {
        newline_count(t.drop_last()) + (if t.last() == '\n' { 1nat } else { 0nat })
    }
}

/// Where the last line of `t` starts: just after its last line break, or at 0.
pub open spec fn last_line_start(t: Seq<char>) -> nat
    decreases t.len(),
{
    if t.len() == 0 {
        0
    } else if t.last() == '\n' {
        t.len()
    } else {
        last_line_start(t.drop_last())
    }
}

proof fn lemma_scan_plain(s: Seq<char>, i: nat, line: nat, line_start: nat, acc: Seq<SpecTokenType>)
    requires
        i <= s.len(),
        forall|j: int| i <= j < s.len() ==> is_plain_char(#[trigger] s[j]),
    ensures
        scan(s, i, line, line_start, acc) == Ok::<_, Seq<char>>(acc + plain_tokens(s.subrange(i as int, s.len() as int))),
    decreases s.len() - i,
{
    let rest = s.subrange(i as int, s.len() as int);
    if i == s.len() {
        assert(rest =~= Seq::<char>::empty());
        assert(acc + plain_tokens(rest) =~= acc);
    } else {
        let c = s[i as int];
        assert(rest.drop_first() =~= s.subrange(i + 1 as int, s.len() as int));
        assert(rest[0] == c);
        if c == ' ' {
            lemma_scan_plain(s, i + 1, line, line_start, acc);
            assert(acc + plain_tokens(rest) =~= acc + plain_tokens(rest.drop_first()));
        } else if c == '\n' {
            lemma_scan_plain(s, i + 1, line + 1, i + 1, acc.push(TokenKind::NewLine));
            assert(acc + plain_tokens(rest) =~= acc.push(TokenKind::NewLine) + plain_tokens(rest.drop_first()));
        } else {
            let t = symbol_token(c)->0;
            lemma_scan_plain(s, i + 1, line, line_start, acc.push(t));
            assert(acc + plain_tokens(rest) =~= acc.push(t) + plain_tokens(rest.drop_first()));
        }
    }
}

/// A text of spaces, line breaks and punctuation alone is always
/// tokenized, into one token per character but for the spaces, in order.
pub proof fn law_plain_text_tokens(s: Seq<char>)
    requires
        forall|j: int| 0 <= j < s.len() ==> is_plain_char(#[trigger] s[j]),
    ensures
        tokenize_spec(s) == Ok::<_, Seq<char>>(plain_tokens(s)),
{
    lemma_scan_plain(s, 0, 1, 0, Seq::empty());
    assert(s.subrange(0, s.len() as int) =~= s);
    assert(Seq::<SpecTokenType>::empty() + plain_tokens(s) =~= plain_tokens(s));
}

proof fn lemma_scan_first_bad(s: Seq<char>, i: nat, k: nat, acc: Seq<SpecTokenType>)
    requires
        i <= k < s.len(),
        forall|j: int| 0 <= j < k ==> is_plain_char(#[trigger] s[j]),
        !is_plain_char(s[k as int]),
        !('0' <= s[k as int] <= '9'),
        s[k as int] != '@',
    ensures
        scan(s, i, 1 + newline_count(s.take(i as int)), last_line_start(s.take(i as int)), acc)
            == Err::<Seq<SpecTokenType>, _>(position_message(
                1 + newline_count(s.take(k as int)),
                column(k, last_line_start(s.take(k as int))),
            )),
    decreases k - i,
{
    let t = s.take(i as int);
    let t2 = s.take(i + 1 as int);
    lemma_line_start_bound(t);
    if i < k {
        assert(t2.drop_last() =~= t);
        assert(t2.last() == s[i as int]);
        let c = s[i as int];
        assert(is_plain_char(c));
        if c == ' ' {
            lemma_scan_first_bad(s, i + 1, k, acc);
        } else if c == '\n' {
            lemma_scan_first_bad(s, i + 1, k, acc.push(TokenKind::NewLine));
        } else {
            lemma_scan_first_bad(s, i + 1, k, acc.push(symbol_token(c)->0));
        }
    }
}

proof fn lemma_line_start_bound(t: Seq<char>)
    ensures
        last_line_start(t) <= t.len(),
    decreases t.len(),
{
    if t.len() > 0 && t.last() != '\n' {
        lemma_line_start_bound(t.drop_last());
    }
}

/// When the first character that is not a space, a line break or
/// punctuation starts neither a numeral nor an identifier, tokenizing fails
/// there, and the message gives its line (one more than the line breaks
/// before it) and its column (its distance from the start of its line,
/// modulo 256).
pub proof fn law_first_bad_char_reported(s: Seq<char>, k: nat)
    requires
        k < s.len(),
        forall|j: int| 0 <= j < k ==> is_plain_char(#[trigger] s[j]),
        !is_plain_char(s[k as int]),
        !('0' <= s[k as int] <= '9'),
        s[k as int] != '@',
    ensures
        tokenize_spec(s) == Err::<Seq<SpecTokenType>, _>(position_message(
            1 + newline_count(s.take(k as int)),
            column(k, last_line_start(s.take(k as int))),
        )),
{
    lemma_scan_first_bad(s, 0, k, Seq::empty());
    assert(s.take(0) =~= Seq::<char>::empty());
}

/// The tokens that scanning `s` from `i` adds after `acc`, or none where
/// scanning fails: `scan` without its line bookkeeping, which only the
/// error message uses.
pub open spec fn scan_tokens(s: Seq<char>, i: nat, acc: Seq<SpecTokenType>) -> Option<Seq<SpecTokenType>>
    decreases s.len() - i,
{
    if i >= s.len() {
        Some(acc)
    } else {
        let c = s[i as int];
        if c == ' ' {
            scan_tokens(s, i + 1, acc)
        } else if c == '\n' {
            scan_tokens(s, i + 1, acc.push(TokenKind::NewLine))
        } else if '0' <= c <= '9' {
            match number_result(Some(leading_numeral(s.subrange(i as int, s.len() as int)))) {
                Ok((t, n)) => scan_tokens(s, resume_at(s.len(), i, n as nat), acc.push(t)),
                Err(e) => None,
            }
        } else if c == '@' {
            match identifier_result(leading_identifier(s.subrange(i + 1 as int, s.len() as int))) {
                Ok((t, n)) => scan_tokens(s, resume_at(s.len(), i + 1, n as nat), acc.push(t)),
                Err(e) => None,
            }
        } else {
            match symbol_token(c) {
                Some(t) => scan_tokens(s, i + 1, acc.push(t)),
                None => None,
            }
        }
    }
}

proof fn lemma_scan_tokens_agree(s: Seq<char>, i: nat, line: nat, line_start: nat, acc: Seq<SpecTokenType>)
    ensures
        (scan(s, i, line, line_start, acc) is Ok) == (scan_tokens(s, i, acc) is Some),
        scan(s, i, line, line_start, acc) matches Ok(z) ==> scan_tokens(s, i, acc) == Some(z),
    decreases s.len() - i,
{
    if i < s.len() {
        let c = s[i as int];
        if c == ' ' {
            lemma_scan_tokens_agree(s, i + 1, line, line_start, acc);
        } else if c == '\n' {
            lemma_scan_tokens_agree(s, i + 1, line + 1, i + 1, acc.push(TokenKind::NewLine));
        } else if '0' <= c <= '9' {
            match number_result(Some(leading_numeral(s.subrange(i as int, s.len() as int)))) {
                Ok((t, n)) => lemma_scan_tokens_agree(s, resume_at(s.len(), i, n as nat), line, line_start, acc.push(t)),
                Err(e) => {},
            }
        } else if c == '@' {
            match identifier_result(leading_identifier(s.subrange(i + 1 as int, s.len() as int))) {
                Ok((t, n)) => lemma_scan_tokens_agree(s, resume_at(s.len(), i + 1, n as nat), line, line_start, acc.push(t)),
                Err(e) => {},
            }
        } else {
            match symbol_token(c) {
                Some(t) => lemma_scan_tokens_agree(s, i + 1, line, line_start, acc.push(t)),
                None => {},
            }
        }
    }
}

proof fn lemma_scan_tokens_acc(s: Seq<char>, i: nat, acc: Seq<SpecTokenType>)
    ensures
        scan_tokens(s, i, acc) == match scan_tokens(s, i, Seq::empty()) {
            Some(z) => Some(acc + z),
            None => None::<Seq<SpecTokenType>>,
        },
    decreases s.len() - i,
{
    let e = Seq::<SpecTokenType>::empty();
    if i >= s.len() {
        assert(acc + e =~= acc);
    } else {
        let c = s[i as int];
        if c == ' ' {
            lemma_scan_tokens_acc(s, i + 1, acc);
            lemma_scan_tokens_acc(s, i + 1, e);
        } else {
            let next: Option<(SpecTokenType, nat)> = if c == '\n' {
                Some((TokenKind::NewLine, i + 1))
            } else if '0' <= c <= '9' {
                match number_result(Some(leading_numeral(s.subrange(i as int, s.len() as int)))) {
                    Ok((t, n)) => Some((t, resume_at(s.len(), i, n as nat))),
                    Err(_) => None,
                }
            } else if c == '@' {
                match identifier_result(leading_identifier(s.subrange(i + 1 as int, s.len() as int))) {
                    Ok((t, n)) => Some((t, resume_at(s.len(), i + 1, n as nat))),
                    Err(_) => None,
                }
            } else {
                match symbol_token(c) {
                    Some(t) => Some((t, i + 1)),
                    None => None,
                }
            };
            if let Some((t, j)) = next {
                lemma_scan_tokens_acc(s, j, acc.push(t));
                lemma_scan_tokens_acc(s, j, e.push(t));
                lemma_scan_tokens_acc(s, j, e);
                if let Some(z) = scan_tokens(s, j, e) {
                    assert(acc.push(t) + z =~= acc + (e.push(t) + z));
                }
            }
        }
    }
}

proof fn lemma_scan_tokens_shift(p: Seq<char>, b: Seq<char>, j: nat, acc: Seq<SpecTokenType>)
    requires
        j <= b.len(),
    ensures
        scan_tokens(p + b, p.len() + j, acc) == scan_tokens(b, j, acc),
    decreases b.len() - j,
{
    let s = p + b;
    let i = p.len() + j;
    if j < b.len() {
        assert(s[i as int] == b[j as int]);
        assert(s.subrange(i as int, s.len() as int) =~= b.subrange(j as int, b.len() as int));
        assert(s.subrange(i + 1 as int, s.len() as int) =~= b.subrange(j + 1 as int, b.len() as int));
        let c = b[j as int];
        if c == ' ' {
            lemma_scan_tokens_shift(p, b, j + 1, acc);
        } else if c == '\n' {
            lemma_scan_tokens_shift(p, b, j + 1, acc.push(TokenKind::NewLine));
        } else if '0' <= c <= '9' {
            match number_result(Some(leading_numeral(b.subrange(j as int, b.len() as int)))) {
                Ok((t, n)) => {
                    assert(resume_at(s.len(), i, n as nat) == p.len() + resume_at(b.len(), j, n as nat));
                    lemma_scan_tokens_shift(p, b, resume_at(b.len(), j, n as nat), acc.push(t));
                },
                Err(_) => {},
            }
        } else if c == '@' {
            match identifier_result(leading_identifier(b.subrange(j + 1 as int, b.len() as int))) {
                Ok((t, n)) => {
                    assert(resume_at(s.len(), i + 1, n as nat) == p.len() + resume_at(b.len(), j + 1, n as nat));
                    lemma_scan_tokens_shift(p, b, resume_at(b.len(), j + 1, n as nat), acc.push(t));
                },
                Err(_) => {},
            }
        } else {
            match symbol_token(c) {
                Some(t) => lemma_scan_tokens_shift(p, b, j + 1, acc.push(t)),
                None => {},
            }
        }
    }
}

proof fn lemma_name_run(u: Seq<char>, v: Seq<char>)
    requires
        v.len() == 0 || !is_name_char(v[0]),
    ensures
        name_run(u + v) == name_run(u),
        name_run(u) <= u.len(),
        forall|k: int| 0 <= k < name_run(u) ==> is_name_char(#[trigger] u[k]),
    decreases u.len(),
{
    if u.len() == 0 {
        assert(u + v =~= v);
    } else {
        assert((u + v)[0] == u[0]);
        assert((u + v).drop_first() =~= u.drop_first() + v);
        lemma_name_run(u.drop_first(), v);
        if is_name_char(u[0]) {
            assert forall|k: int| 0 <= k < name_run(u) implies is_name_char(#[trigger] u[k]) by {
                if k > 0 {
                    assert(u[k] == u.drop_first()[k - 1]);
                }
            }
        }
    }
}

proof fn lemma_digit_run(u: Seq<char>, v: Seq<char>)
    requires
        v.len() == 0 || !is_digit(v[0]),
    ensures
        digit_run(u + v) == digit_run(u),
        digit_run(u) <= u.len(),
        forall|k: int| 0 <= k < digit_run(u) ==> is_digit(#[trigger] u[k]),
    decreases u.len(),
{
    if u.len() == 0 {
        assert(u + v =~= v);
    } else {
        assert((u + v)[0] == u[0]);
        assert((u + v).drop_first() =~= u.drop_first() + v);
        lemma_digit_run(u.drop_first(), v);
        if is_digit(u[0]) {
            assert forall|k: int| 0 <= k < digit_run(u) implies is_digit(#[trigger] u[k]) by {
                if k > 0 {
                    assert(u[k] == u.drop_first()[k - 1]);
                }
            }
        }
    }
}

/// Whether `c` ends every numeral and every name: a space or a line break.
pub open spec fn is_separator(c: char) -> bool {
    c == ' ' || c == '\n'
}

proof fn lemma_leading_numeral_concat(u: Seq<char>, v: Seq<char>)
    requires
        v.len() > 0,
        is_separator(v[0]),
    ensures
        leading_numeral(u + v) == leading_numeral(u),
        leading_numeral(u).len() <= u.len(),
        vstd::utf8::is_ascii_chars(leading_numeral(u)),
{
    let e = Seq::<char>::empty();
    lemma_digit_run(u, v);
    lemma_digit_run(u, e);
    let d = digit_run(u);
    let w = u + v;
    if d < u.len() && u[d as int] == '.' {
        assert(w[d as int] == u[d as int]);
        assert(w.skip(d + 1 as int) =~= u.skip(d + 1 as int) + v);
        lemma_digit_run(u.skip(d + 1 as int), v);
        let k = d + 1 + digit_run(u.skip(d + 1 as int));
        assert(w.take(k as int) =~= u.take(k as int));
        assert forall|j: int| 0 <= j < k implies '\0' <= #[trigger] u.take(k as int)[j] <= '\u{7f}' by {
            if j > d {
                assert(u[j] == u.skip(d + 1 as int)[j - d - 1]);
            }
        }
    } else {
        if d == u.len() {
            assert(w[d as int] == v[0]);
        } else {
            assert(w[d as int] == u[d as int]);
        }
        assert(w.take(d as int) =~= u.take(d as int));
    }
}

proof fn lemma_leading_identifier_concat(u: Seq<char>, v: Seq<char>)
    requires
        v.len() > 0,
        is_separator(v[0]),
    ensures
        leading_identifier(u + v) == leading_identifier(u),
        name_run(u) <= u.len(),
        leading_identifier(u) matches Some(m) ==> m.len() <= u.len() && vstd::utf8::is_ascii_chars(m),
{
    lemma_name_run(u, v);
    let n = name_run(u);
    assert((u + v).take(n as int) =~= u.take(n as int));
}

proof fn lemma_scan_tokens_extend(a: Seq<char>, r: Seq<char>, i: nat, acc: Seq<SpecTokenType>)
    requires
        i <= a.len(),
        a.len() <= usize::MAX,
        r.len() > 0,
        is_separator(r[0]),
        scan_tokens(a, i, acc) is Some,
    ensures
        scan_tokens(a + r, i, acc) == scan_tokens(a + r, a.len(), scan_tokens(a, i, acc)->0),
    decreases a.len() - i,
{
    broadcast use vstd::utf8::is_ascii_chars_encode_utf8;
    let s = a + r;
    if i < a.len() {
        let c = a[i as int];
        assert(s[i as int] == c);
        let ua = a.subrange(i as int, a.len() as int);
        assert(s.subrange(i as int, s.len() as int) =~= ua + r);
        let ub = a.subrange(i + 1 as int, a.len() as int);
        assert(s.subrange(i + 1 as int, s.len() as int) =~= ub + r);
        if c == ' ' {
            lemma_scan_tokens_extend(a, r, i + 1, acc);
        } else if c == '\n' {
            lemma_scan_tokens_extend(a, r, i + 1, acc.push(TokenKind::NewLine));
        } else if '0' <= c <= '9' {
            lemma_leading_numeral_concat(ua, r);
            let m = leading_numeral(ua);
            match number_result(Some(m)) {
                Ok((t, n)) => {
                    assert(n as nat == m.len());
                    assert(resume_at(a.len(), i, n as nat) == i + m.len());
                    assert(resume_at(s.len(), i, n as nat) == i + m.len());
                    lemma_scan_tokens_extend(a, r, i + m.len(), acc.push(t));
                },
                Err(_) => {},
            }
        } else if c == '@' {
            lemma_leading_identifier_concat(ub, r);
            match identifier_result(leading_identifier(ub)) {
                Ok((t, n)) => {
                    let m = leading_identifier(ub)->0;
                    assert(m.len() == name_run(ub) && m.len() >= 1);
                    assert(m.len() <= ub.len());
                    assert(n as nat == m.len());
                    assert(resume_at(a.len(), i + 1, n as nat) == i + 1 + m.len());
                    assert(resume_at(s.len(), i + 1, n as nat) == i + 1 + m.len());
                    lemma_scan_tokens_extend(a, r, i + 1 + m.len(), acc.push(t));
                },
                Err(_) => {},
            }
        } else {
            match symbol_token(c) {
                Some(t) => lemma_scan_tokens_extend(a, r, i + 1, acc.push(t)),
                None => {},
            }
        }
    }
}

/// Joining two texts that each tokenize, with a space or a line break
/// between them, tokenizes into the tokens of the first, then a `NewLine`
/// for a line break, then the tokens of the second.
pub proof fn law_join_tokens(a: Seq<char>, b: Seq<char>, sep: char, x: Seq<SpecTokenType>, y: Seq<SpecTokenType>)
    requires
        tokenize_spec(a) == Ok::<_, Seq<char>>(x),
        tokenize_spec(b) == Ok::<_, Seq<char>>(y),
        is_separator(sep),
        a.len() <= usize::MAX,
    ensures
        tokenize_spec(a + seq![sep] + b) == Ok::<_, Seq<char>>(
            if sep == '\n' { x + seq![TokenKind::NewLine] + y } else { x + y },
        ),
{
    let e = Seq::<SpecTokenType>::empty();
    let p = a + seq![sep];
    let j = p + b;
    assert(j =~= a + (seq![sep] + b));
    lemma_scan_tokens_agree(a, 0, 1, 0, e);
    lemma_scan_tokens_agree(b, 0, 1, 0, e);
    lemma_scan_tokens_agree(j, 0, 1, 0, e);
    lemma_scan_tokens_extend(a, seq![sep] + b, 0, e);
    assert(j[a.len() as int] == sep);
    let acc2 = if sep == '\n' { x.push(TokenKind::NewLine) } else { x };
    assert(scan_tokens(j, a.len(), x) == scan_tokens(j, a.len() + 1, acc2));
    assert(p.len() == a.len() + 1);
    lemma_scan_tokens_shift(p, b, 0, acc2);
    lemma_scan_tokens_acc(b, 0, acc2);
    if sep == '\n' {
        assert(acc2 + y =~= x + seq![TokenKind::NewLine] + y);
    }
}

proof fn lemma_all_digits_run(u: Seq<char>)
    requires
        forall|k: int| 0 <= k < u.len() ==> is_digit(#[trigger] u[k]),
    ensures
        digit_run(u) == u.len(),
    decreases u.len(),
{
    if u.len() > 0 {
        assert forall|k: int| 0 <= k < u.drop_first().len() implies is_digit(#[trigger] u.drop_first()[k]) by {
            assert(u.drop_first()[k] == u[k + 1]);
        }
        lemma_all_digits_run(u.drop_first());
    }
}

proof fn lemma_all_names_run(u: Seq<char>)
    requires
        forall|k: int| 0 <= k < u.len() ==> is_name_char(#[trigger] u[k]),
    ensures
        name_run(u) == u.len(),
    decreases u.len(),
{
    if u.len() > 0 {
        assert forall|k: int| 0 <= k < u.drop_first().len() implies is_name_char(#[trigger] u.drop_first()[k]) by {
            assert(u.drop_first()[k] == u[k + 1]);
        }
        lemma_all_names_run(u.drop_first());
    }
}

/// A numeral written as digits, then, optionally, a dot and digits, with
/// at least one digit in all, is read whole as a number token when
/// whatever follows it cannot continue it, and its length is its number of
/// characters.
pub proof fn law_numeral_read_whole(w: Seq<char>, dot: bool, f: Seq<char>, r: Seq<char>)
    requires
        w.len() + f.len() > 0,
        forall|k: int| 0 <= k < w.len() ==> is_digit(#[trigger] w[k]),
        forall|k: int| 0 <= k < f.len() ==> is_digit(#[trigger] f[k]),
        !dot ==> f.len() == 0,
        r.len() == 0 || (!is_digit(r[0]) && (dot || r[0] != '.')),
        numeral_text(w, dot, f).len() <= usize::MAX,
    ensures
        number_result(Some(leading_numeral(numeral_text(w, dot, f) + r))) == Ok::<_, Seq<char>>(
            (TokenKind::Number(numeral_text(w, dot, f)), numeral_text(w, dot, f).len() as usize),
        ),
{
    broadcast use vstd::utf8::is_ascii_chars_encode_utf8;
    let t = numeral_text(w, dot, f);
    let s = t + r;
    let tail = if dot { seq!['.'] + f + r } else { r };
    assert(s =~= w + tail);
    lemma_all_digits_run(w);
    lemma_digit_run(w, tail);
    let d = digit_run(s);
    assert(d == w.len());
    if dot {
        assert(s[d as int] == '.');
        assert(s.skip(d + 1 as int) =~= f + r);
        lemma_all_digits_run(f);
        lemma_digit_run(f, r);
        assert(s.take(t.len() as int) =~= t);
    } else {
        if d < s.len() {
            assert(s[d as int] == r[0]);
        }
        assert(s.take(d as int) =~= t);
    }
    assert(leading_numeral(s) == t);
    if w.len() > 0 {
        assert(t[0] == w[0]);
    } else {
        assert(t[1] == f[0]);
    }
    assert(vstd::utf8::is_ascii_chars(t)) by {
        assert forall|k: int| 0 <= k < t.len() implies '\0' <= #[trigger] t[k] <= '\u{7f}' by {
            if k < w.len() {
                assert(t[k] == w[k]);
            } else if k > w.len() {
                assert(t[k] == f[k - w.len() - 1]);
            }
        }
    }
}

/// A text that is one numeral (digits, then optionally a dot and digits)
/// tokenizes into the one number token that holds that text.
pub proof fn law_numeral_text_tokens(w: Seq<char>, dot: bool, f: Seq<char>)
    requires
        w.len() > 0,
        forall|k: int| 0 <= k < w.len() ==> is_digit(#[trigger] w[k]),
        forall|k: int| 0 <= k < f.len() ==> is_digit(#[trigger] f[k]),
        !dot ==> f.len() == 0,
        numeral_text(w, dot, f).len() <= usize::MAX,
    ensures
        tokenize_spec(numeral_text(w, dot, f)) == Ok::<_, Seq<char>>(seq![TokenKind::Number(numeral_text(w, dot, f))]),
{
    let t = numeral_text(w, dot, f);
    let e = Seq::<char>::empty();
    law_numeral_read_whole(w, dot, f, e);
    assert(t + e =~= t);
    assert(t.subrange(0, t.len() as int) =~= t);
    assert(t[0] == w[0]);
    let acc = Seq::<SpecTokenType>::empty().push(TokenKind::Number(t));
    assert(resume_at(t.len(), 0, t.len()) == t.len());
    assert(scan(t, t.len(), 1, 0, acc) == Ok::<_, Seq<char>>(acc));
    assert(acc =~= seq![TokenKind::Number(t)]);
}

/// A name of one or more letters and underscores is read whole as an
/// identifier token when whatever follows it is no such character, and its
/// length is its number of characters.
pub proof fn law_identifier_read_whole(m: Seq<char>, r: Seq<char>)
    requires
        m.len() > 0,
        forall|k: int| 0 <= k < m.len() ==> is_name_char(#[trigger] m[k]),
        r.len() == 0 || !is_name_char(r[0]),
        m.len() <= usize::MAX,
    ensures
        identifier_result(leading_identifier(m + r)) == Ok::<_, Seq<char>>(
            (TokenKind::Identifier(m), m.len() as usize),
        ),
{
    broadcast use vstd::utf8::is_ascii_chars_encode_utf8;
    lemma_all_names_run(m);
    lemma_name_run(m, r);
    assert((m + r).take(m.len() as int) =~= m);
    assert(vstd::utf8::is_ascii_chars(m)) by {
        assert forall|k: int| 0 <= k < m.len() implies '\0' <= #[trigger] m[k] <= '\u{7f}' by {
            assert(is_name_char(m[k]));
        }
    }
}

/// `@` followed by a name of letters and underscores tokenizes into the one
/// identifier token that holds the whole name.
pub proof fn law_identifier_text_tokens(m: Seq<char>)
    requires
        m.len() > 0,
        forall|k: int| 0 <= k < m.len() ==> is_name_char(#[trigger] m[k]),
        m.len() < usize::MAX,
    ensures
        tokenize_spec(seq!['@'] + m) == Ok::<_, Seq<char>>(seq![TokenKind::Identifier(m)]),
{
    let s = seq!['@'] + m;
    let e = Seq::<char>::empty();
    law_identifier_read_whole(m, e);
    assert(m + e =~= m);
    assert(s[0] == '@');
    assert(s.subrange(1, s.len() as int) =~= m);
    let acc = Seq::<SpecTokenType>::empty().push(TokenKind::Identifier(m));
    assert(resume_at(s.len(), 1, m.len()) == s.len());
    assert(scan(s, s.len(), 1, 0, acc) == Ok::<_, Seq<char>>(acc));
    assert(acc =~= seq![TokenKind::Identifier(m)]);
}

/// A text that starts with a numeral (digits, then optionally a dot and
/// digits) tokenizes into the number token of that whole numeral followed
/// by the tokens of the rest, when the rest tokenizes and cannot continue
/// the numeral.
pub proof fn law_numeral_then_tokens(
    w: Seq<char>,
    dot: bool,
    f: Seq<char>,
    b: Seq<char>,
    y: Seq<SpecTokenType>,
)
    requires
        w.len() > 0,
        forall|k: int| 0 <= k < w.len() ==> is_digit(#[trigger] w[k]),
        forall|k: int| 0 <= k < f.len() ==> is_digit(#[trigger] f[k]),
        !dot ==> f.len() == 0,
        b.len() == 0 || (!is_digit(b[0]) && (dot || b[0] != '.')),
        tokenize_spec(b) == Ok::<_, Seq<char>>(y),
        numeral_text(w, dot, f).len() + b.len() <= usize::MAX,
    ensures
        tokenize_spec(numeral_text(w, dot, f) + b) == Ok::<_, Seq<char>>(
            seq![TokenKind::Number(numeral_text(w, dot, f))] + y,
        ),
{
    let t = numeral_text(w, dot, f);
    let s = t + b;
    let e = Seq::<SpecTokenType>::empty();
    law_numeral_read_whole(w, dot, f, b);
    assert(s.subrange(0, s.len() as int) =~= s);
    assert(t[0] == w[0]);
    assert(s[0] == t[0]);
    let acc = e.push(TokenKind::Number(t));
    assert(resume_at(s.len(), 0, t.len()) == t.len());
    assert(scan_tokens(s, 0, e) == scan_tokens(s, t.len(), acc));
    lemma_scan_tokens_shift(t, b, 0, acc);
    lemma_scan_tokens_agree(b, 0, 1, 0, e);
    lemma_scan_tokens_acc(b, 0, acc);
    lemma_scan_tokens_agree(s, 0, 1, 0, e);
    assert(acc + y =~= seq![TokenKind::Number(t)] + y);
}

/// A text that starts with `@` and a name of letters and underscores
/// tokenizes into the identifier token of that whole name followed by the
/// tokens of the rest, when the rest tokenizes and does not start with a
/// letter or an underscore.
pub proof fn law_identifier_then_tokens(m: Seq<char>, b: Seq<char>, y: Seq<SpecTokenType>)
    requires
        m.len() > 0,
        forall|k: int| 0 <= k < m.len() ==> is_name_char(#[trigger] m[k]),
        b.len() == 0 || !is_name_char(b[0]),
        tokenize_spec(b) == Ok::<_, Seq<char>>(y),
        m.len() + b.len() < usize::MAX,
    ensures
        tokenize_spec(seq!['@'] + m + b) == Ok::<_, Seq<char>>(seq![TokenKind::Identifier(m)] + y),
{
    let p = seq!['@'] + m;
    let s = p + b;
    let e = Seq::<SpecTokenType>::empty();
    law_identifier_read_whole(m, b);
    assert(s[0] == '@');
    assert(s.subrange(1, s.len() as int) =~= m + b);
    let acc = e.push(TokenKind::Identifier(m));
    assert(resume_at(s.len(), 1, m.len()) == p.len());
    assert(scan_tokens(s, 0, e) == scan_tokens(s, p.len(), acc));
    lemma_scan_tokens_shift(p, b, 0, acc);
    lemma_scan_tokens_agree(b, 0, 1, 0, e);
    lemma_scan_tokens_acc(b, 0, acc);
    lemma_scan_tokens_agree(s, 0, 1, 0, e);
    assert(acc + y =~= seq![TokenKind::Identifier(m)] + y);
}

/// What the number pattern reads at the start of any text is refused
/// exactly when it holds no digit (it is then empty or a lone dot);
/// otherwise it is the number token of that text, with its length.
pub proof fn law_numeral_needs_a_digit(s: Seq<char>)
    requires
        s.len() <= usize::MAX,
    ensures
        number_result(Some(leading_numeral(s))) is Err <==> (forall|k: int|
            0 <= k < leading_numeral(s).len() ==> !is_digit(#[trigger] leading_numeral(s)[k])),
        number_result(Some(leading_numeral(s))) is Ok ==> number_result(Some(leading_numeral(s)))
            == Ok::<_, Seq<char>>((TokenKind::Number(leading_numeral(s)), leading_numeral(s).len() as usize)),
{
    broadcast use vstd::utf8::is_ascii_chars_encode_utf8;
    let e = Seq::<char>::empty();
    lemma_leading_numeral_concat(s, seq![' ']);
    let m = leading_numeral(s);
    let d = digit_run(s);
    lemma_digit_run(s, e);
    assert(s + e =~= s);
    if d > 0 {
        if d < s.len() && s[d as int] == '.' {
            let g = s.skip(d + 1 as int);
            lemma_digit_run(g, e);
            assert(g + e =~= g);
        }
        assert(m.len() >= 1);
        assert(m[0] == s[0]);
        assert(is_digit(m[0]));
    } else if d < s.len() && s[d as int] == '.' {
        let g = s.skip(1);
        let d2 = digit_run(g);
        lemma_digit_run(g, e);
        assert(g + e =~= g);
        if d2 > 0 {
            assert(m[1] == g[0]);
            assert(is_digit(m[1]));
        } else {
            assert(m =~= seq!['.']);
        }
    } else {
        assert(m =~= e);
    }
}

} // verus!
