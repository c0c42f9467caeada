use vstd::prelude::*;
use vstd::string::*;
use crate::error::RuntimeError;

verus! {

/// Where the card database serves one printing of a card.
pub const CARDS_ENDPOINT: &'static str = "https://api.scryfall.com/cards/";

/// What one input line asks for: how many copies of which printing.
pub struct CardRequest {
    pub count: u8,
    pub set: Seq<char>,
    pub code: Seq<char>,
}

/// One decoded input line.
pub struct LineCard {
    pub count: u8,
    pub set: String,
    pub code: String,
}

impl View for LineCard {
    type V = CardRequest;

    open spec fn view(&self) -> CardRequest {
        CardRequest { count: self.count, set: self.set@, code: self.code@ }
    }
}

/// The end of the token that starts at `from`: the first space at or after
/// `from`, or the end of the line.
pub open spec fn token_end(s: Seq<char>, from: int) -> int
    decreases s.len() - from,
{
    if from >= s.len() || s[from] == ' ' {
        from
    } else {
        token_end(s, from + 1)
    }
}

pub open spec fn is_digit(c: char) -> bool {
    '0' <= c && c <= '9'
}

pub open spec fn digit_value(c: char) -> nat {
    (c as u32 - '0' as u32) as nat
}

/// The number written by a string of decimal digits.
pub open spec fn digits_value(d: Seq<char>) -> nat
    decreases d.len(),
{
    if d.len() == 0 {
        0
    } else {
        digits_value(d.drop_last()) * 10 + digit_value(d.last())
    }
}

/// The digits of a count, after an optional leading `+`.
pub open spec fn count_digits(t: Seq<char>) -> Seq<char> {
    if t.len() > 0 && t[0] == '+' {
        t.skip(1)
    } else {
        t
    }
}

/// The count that a token writes: decimal digits after an optional `+`,
/// at least one, with a value that fits in one byte.
pub open spec fn count_of(t: Seq<char>) -> Option<u8> {
    let d = count_digits(t);
    if d.len() > 0 && (forall|i: int| 0 <= i < d.len() ==> is_digit(#[trigger] d[i]))
        && digits_value(d) <= 255 {
        Some(digits_value(d) as u8)
    } else {
        None
    }
}

/// What a line decodes to. Tokens are separated by single spaces; the
/// count is read before the presence of the other two tokens is checked,
/// and tokens after the third are not read.
pub open spec fn decode_line(s: Seq<char>) -> Result<CardRequest, RuntimeError> {
    let e0 = token_end(s, 0);
    let e1 = token_end(s, e0 + 1);
    let e2 = token_end(s, e1 + 1);
    match count_of(s.take(e0)) {
        None => Err(RuntimeError::InvalidCardCountNumberError),
        Some(n) => if e0 >= s.len() || e1 >= s.len() {
            Err(RuntimeError::MalformedLineError)
        } else {
            Ok(CardRequest { count: n, set: s.subrange(e0 + 1, e1), code: s.subrange(e1 + 1, e2) })
        },
    }
}

/// The lookup address of a request: the card code, then the set code.
pub open spec fn url_of(r: CardRequest) -> Seq<char> {
    CARDS_ENDPOINT@ + r.code + seq!['/'] + r.set
}

proof fn lemma_token_end_bounds(s: Seq<char>, from: int)
    requires
        0 <= from <= s.len(),
    ensures
        from <= token_end(s, from) <= s.len(),
        token_end(s, from) < s.len() ==> s[token_end(s, from)] == ' ',
        forall|i: int| from <= i < token_end(s, from) ==> s[i] != ' ',
    decreases s.len() - from,
{
    if from < s.len() && s[from] != ' ' {
        lemma_token_end_bounds(s, from + 1);
    }
}

fn scan_token(s: &str, len: usize, from: usize) -> (e: usize)
    requires
        len == s@.len(),
        from <= len,
    ensures
        e as int == token_end(s@, from as int),
        from <= e <= len,
{
    let mut i: usize = from;
    while i < len && s.get_char(i) != ' '
        invariant
            len == s@.len(),
            from <= i <= len,
            token_end(s@, i as int) == token_end(s@, from as int),
        decreases len - i,
    {
        i = i + 1;
    }
    i
}

fn parse_count(t: &str) -> (r: Option<u8>)
    ensures
        r == count_of(t@),
{
    let len = t.unicode_len();
    let start: usize = if len > 0 && t.get_char(0) == '+' { 1 } else { 0 };
    let ghost d = count_digits(t@);
    assert(d == t@.subrange(start as int, len as int));
    if start == len {
        return None;
    }
    let mut acc: u32 = 0;
    let mut over = false;
    let mut i: usize = start;
    while i < len
        invariant
            d == count_digits(t@),
            d == t@.subrange(start as int, len as int),
            start <= i <= len,
            len == t@.len(),
            forall|k: int| start <= k < i ==> is_digit(#[trigger] t@[k]),
            !over ==> acc as nat == digits_value(d.take(i - start)) && acc <= 255,
            over ==> digits_value(d.take(i - start)) > 255,
        decreases len - i,
    {
        let c = t.get_char(i);
        if !('0' <= c && c <= '9') {
            assert(!is_digit(d[i - start]));
            assert(!(forall|k: int| 0 <= k < d.len() ==> is_digit(#[trigger] d[k])));
            return None;
        }
        let ghost pre = d.take(i - start);
        assert(d.take(i + 1 - start).drop_last() == pre);
        assert(d.take(i + 1 - start).last() == c);
        if !over {
            acc = acc * 10 + (c as u32 - '0' as u32);
            if acc > 255 {
                over = true;
            }
        }
        i = i + 1;
    }
    assert(d.take(len - start) == d);
    assert forall|k: int| 0 <= k < d.len() implies is_digit(#[trigger] d[k]) by {
        assert(d[k] == t@[k + start]);
    }
    if over {
        None
    } else {
        Some(acc as u8)
    }
}

impl LineCard {
    /// Decodes a line `"<count> <set> <code>"`.
    pub fn parse_from(line_str: &str) -> (r: Result<LineCard, RuntimeError>)
        ensures
            match r {
                Ok(card) => decode_line(line_str@) == Ok::<CardRequest, RuntimeError>(card@),
                Err(e) => decode_line(line_str@) == Err::<CardRequest, RuntimeError>(e),
            },
    {
        let ghost s = line_str@;
        let len = line_str.unicode_len();
        let e0 = scan_token(line_str, len, 0);
        let count = match parse_count(line_str.substring_char(0, e0)) {
            Some(n) => n,
            None => return Err(RuntimeError::InvalidCardCountNumberError),
        };
        if e0 >= len {
            return Err(RuntimeError::MalformedLineError);
        }
        let e1 = scan_token(line_str, len, e0 + 1);
        if e1 >= len {
            return Err(RuntimeError::MalformedLineError);
        }
        let e2 = scan_token(line_str, len, e1 + 1);
        let set = line_str.substring_char(e0 + 1, e1).to_string();
        let code = line_str.substring_char(e1 + 1, e2).to_string();
        Ok(LineCard { count, set, code })
    }

    /// The address that serves this card.
    pub fn to_url(&self) -> (r: String)
        ensures
            r@ == url_of(self@),
    {
        let mut url = String::from_str(CARDS_ENDPOINT);
        url.append(self.code.as_str());
        url.append("/");
        url.append(self.set.as_str());
        proof {
            reveal_strlit("/");
        }
        url
    }
}


proof fn lemma_token_end_at(s: Seq<char>, from: int, e: int)
    requires
        0 <= from <= e <= s.len(),
        e == s.len() || s[e] == ' ',
        forall|i: int| from <= i < e ==> s[i] != ' ',
    ensures
        token_end(s, from) == e,
    decreases e - from,
{
    if from < e {
        lemma_token_end_at(s, from + 1, e);
    }
}

/// A line of a count written in decimal, a set code and a card code, each
/// followed by a single space but the last, decodes to exactly that request.
pub proof fn lemma_decode_well_formed(digits: Seq<char>, set: Seq<char>, code: Seq<char>)
    requires
        digits.len() > 0,
        forall|i: int| 0 <= i < digits.len() ==> is_digit(#[trigger] digits[i]),
        1 <= digits_value(digits) <= 255,
        forall|i: int| 0 <= i < set.len() ==> #[trigger] set[i] != ' ',
        forall|i: int| 0 <= i < code.len() ==> #[trigger] code[i] != ' ',
    ensures
        decode_line(digits + seq![' '] + set + seq![' '] + code) == Ok::<CardRequest, RuntimeError>(
            CardRequest { count: digits_value(digits) as u8, set, code },
        ),
{
    let s = digits + seq![' '] + set + seq![' '] + code;
    let e0 = digits.len() as int;
    let e1 = e0 + 1 + set.len();
    let e2 = s.len() as int;
    assert forall|i: int| 0 <= i < e0 implies s[i] != ' ' by {
        assert(s[i] == digits[i]);
    }
    lemma_token_end_at(s, 0, e0);
    assert forall|i: int| e0 + 1 <= i < e1 implies s[i] != ' ' by {
        assert(s[i] == set[i - e0 - 1]);
    }
    lemma_token_end_at(s, e0 + 1, e1);
    assert forall|i: int| e1 + 1 <= i < e2 implies s[i] != ' ' by {
        assert(s[i] == code[i - e1 - 1]);
    }
    lemma_token_end_at(s, e1 + 1, e2);
    assert(s.take(e0) =~= digits);
    assert(count_digits(digits) == digits);
    assert(s.subrange(e0 + 1, e1) =~= set);
    assert(s.subrange(e1 + 1, e2) =~= code);
}

/// A line whose first token is no count in `0..=255` fails on the count,
/// whatever follows it.
pub proof fn lemma_decode_bad_count(s: Seq<char>)
    requires
        count_of(s.take(token_end(s, 0))) is None,
    ensures
        decode_line(s) == Err::<CardRequest, RuntimeError>(RuntimeError::InvalidCardCountNumberError),
{
}

/// A line with a valid count but fewer than three tokens (at most one
/// space) fails as malformed.
pub proof fn lemma_decode_short_line(s: Seq<char>)
    requires
        count_of(s.take(token_end(s, 0))) is Some,
        forall|i: int, j: int|
            #![trigger s[i], s[j]]
            0 <= i < j < s.len() && s[i] == ' ' ==> s[j] != ' ',
    ensures
        decode_line(s) == Err::<CardRequest, RuntimeError>(RuntimeError::MalformedLineError),
{
    let e0 = token_end(s, 0);
    lemma_token_end_bounds(s, 0);
    if e0 < s.len() {
        lemma_token_end_bounds(s, e0 + 1);
        let e1 = token_end(s, e0 + 1);
        if e1 < s.len() {
            assert(s[e0] == ' ');
            assert(s[e1] != ' ');
        }
    }
}

} // verus!
