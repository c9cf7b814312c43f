//! The grammar of the language, and the parser that enforces it.
//!
//! One line of text is split into tokens — the four delimiters and words,
//! separated by whitespace — and the tokens are folded into one value: a
//! word of an optional minus and digits is a number (failing when it does
//! not fit 64 bits), any other word is a symbol, `( ... )` is a call
//! expression, `{ ... }` is a literal list, and the whole line is wrapped
//! into one top-level call expression.

use vstd::prelude::*;

use crate::qexpr::Qexpr;
use crate::sexpr::Sexpr;
use crate::value::{view_values, SpecValue, Value};

verus! {

/// Whether `c` separates tokens.
pub open spec fn is_space(c: char) -> bool {
    c == ' ' || c == '\t' || c == '\r' || c == '\n'
}

/// Whether `c` is one of the four delimiters.
pub open spec fn is_delim(c: char) -> bool {
    c == '(' || c == ')' || c == '{' || c == '}'
}

/// Whether `c` may stand inside a word.
pub open spec fn is_word_char(c: char) -> bool {
    !is_space(c) && !is_delim(c)
}

/// The model of a token.
pub enum SpecTok {
    /// `(`
    Open,
    /// `)`
    Close,
    /// `{`
    OpenBrace,
    /// `}`
    CloseBrace,
    /// A maximal run of word characters.
    Word(Seq<char>),
}

/// A token of the grammar.
#[derive(Debug, PartialEq, Eq)]
pub enum Tok {
    /// `(`
    Open,
    /// `)`
    Close,
    /// `{`
    OpenBrace,
    /// `}`
    CloseBrace,
    /// A maximal run of word characters.
    Word(String),
}

impl View for Tok {
    type V = SpecTok;

    open spec fn view(&self) -> SpecTok {
        match self {
            Tok::Open => SpecTok::Open,
            Tok::Close => SpecTok::Close,
            Tok::OpenBrace => SpecTok::OpenBrace,
            Tok::CloseBrace => SpecTok::CloseBrace,
            Tok::Word(w) => SpecTok::Word(w@),
        }
    }
}

/// The models of a sequence of tokens.
pub open spec fn view_toks(ts: Seq<Tok>) -> Seq<SpecTok> {
    ts.map_values(|t: Tok| t@)
}

/// How many word characters stand at the front of `t`.
pub open spec fn word_len(t: Seq<char>) -> int
    decreases t.len(),
{
    if t.len() == 0 || !is_word_char(t[0]) {
        0
    } else {
        1 + word_len(t.subrange(1, t.len() as int))
    }
}

/// The front run of word characters is no longer than the text.
pub proof fn lemma_word_len_bounds(t: Seq<char>)
    ensures
        0 <= word_len(t) <= t.len(),
        t.len() > 0 && is_word_char(t[0]) ==> word_len(t) >= 1,
    decreases t.len(),
{
    if t.len() > 0 && is_word_char(t[0]) {
        lemma_word_len_bounds(t.subrange(1, t.len() as int));
    }
}

/// The front run of word characters ends exactly at the first character
/// that is none, or at the end of the text.
pub proof fn lemma_word_len_exact(t: Seq<char>, k: int)
    requires
        0 <= k <= t.len(),
        forall|m: int| 0 <= m < k ==> is_word_char(#[trigger] t[m]),
        k == t.len() || !is_word_char(t[k]),
    ensures
        word_len(t) == k,
    decreases k,
{
    if k == 0 {
    } else {
        let rest = t.subrange(1, t.len() as int);
        assert(is_word_char(t[0]));
        assert forall|m: int| 0 <= m < k - 1 implies is_word_char(#[trigger] rest[m]) by {
            assert(rest[m] == t[m + 1]);
        }
        if k < t.len() {
            assert(rest[k - 1] == t[k]);
        }
        lemma_word_len_exact(rest, k - 1);
    }
}

/// The tokens of a text, in order: whitespace separates, the delimiters
/// stand alone, and every other character joins the word around it.
pub open spec fn tokenize(t: Seq<char>) -> Seq<SpecTok>
    decreases t.len(),
    via tokenize_decreases
{
    if t.len() == 0 {
        Seq::empty()
    } else if is_space(t[0]) {
        tokenize(t.subrange(1, t.len() as int))
    } else if t[0] == '(' {
        seq![SpecTok::Open] + tokenize(t.subrange(1, t.len() as int))
    } else if t[0] == ')' {
        seq![SpecTok::Close] + tokenize(t.subrange(1, t.len() as int))
    } else if t[0] == '{' {
        seq![SpecTok::OpenBrace] + tokenize(t.subrange(1, t.len() as int))
    } else if t[0] == '}' {
        seq![SpecTok::CloseBrace] + tokenize(t.subrange(1, t.len() as int))
    } else {
        seq![SpecTok::Word(t.subrange(0, word_len(t)))] + tokenize(
            t.subrange(word_len(t), t.len() as int),
        )
    }
}

#[via_fn]
proof fn tokenize_decreases(t: Seq<char>) {
    if t.len() > 0 && is_word_char(t[0]) {
        lemma_word_len_bounds(t);
    }
}

/// The characters of `s`, in order.
pub(crate) fn str_to_chars(s: &str) -> (v: Vec<char>)
    ensures
        v@ == s@,
{
    let n = s.unicode_len();
    let mut v: Vec<char> = Vec::new();
    let mut i: usize = 0;
    while i < n
        invariant
            n == s@.len(),
            i <= n,
            v@ == s@.subrange(0, i as int),
        decreases n - i,
    {
        let c = s.get_char(i);
        v.push(c);
        proof {
            assert(v@ =~= s@.subrange(0, i as int + 1));
        }
        i = i + 1;
    }
    proof {
        assert(s@.subrange(0, n as int) =~= s@);
    }
    v
}

/// Whether `c` separates tokens.
pub(crate) fn is_space_exec(c: char) -> (r: bool)
    ensures
        r == is_space(c),
{
    c == ' ' || c == '\t' || c == '\r' || c == '\n'
}

/// Whether `c` may stand inside a word.
fn is_word_char_exec(c: char) -> (r: bool)
    ensures
        r == is_word_char(c),
{
    !(c == ' ' || c == '\t' || c == '\r' || c == '\n' || c == '(' || c == ')' || c == '{' || c
        == '}')
}

/// The tokens of `s`, exactly as [`tokenize`] reads them.
pub(crate) fn tokenize_str(s: &str) -> (r: Vec<Tok>)
    ensures
        view_toks(r@) == tokenize(s@),
{
    let chars = str_to_chars(s);
    let n = chars.len();
    let mut toks: Vec<Tok> = Vec::new();
    let mut i: usize = 0;
    proof {
        assert(s@.subrange(0, n as int) =~= s@);
        assert(view_toks(toks@) =~= Seq::<SpecTok>::empty());
    }
    while i < n
        invariant
            n == s@.len(),
            chars@ == s@,
            i <= n,
            tokenize(s@) == view_toks(toks@) + tokenize(s@.subrange(i as int, n as int)),
        decreases n - i,
    {
        let ghost rest = s@.subrange(i as int, n as int);
        proof {
            assert(rest[0] == s@[i as int]);
            assert(rest.subrange(1, rest.len() as int) =~= s@.subrange(i as int + 1, n as int));
        }
        let c = chars[i];
        if is_space_exec(c) {
            i = i + 1;
        } else if c == '(' {
            toks.push(Tok::Open);
            proof {
                lemma_view_toks_push(toks@.drop_last(), Tok::Open);
                assert(toks@.drop_last() =~= toks@.subrange(0, toks@.len() - 1));
                assert(view_toks(toks@) =~= view_toks(toks@.drop_last()).push(SpecTok::Open));
                assert(view_toks(toks@) + tokenize(s@.subrange(i as int + 1, n as int)) =~= (
                view_toks(toks@.drop_last()) + tokenize(s@.subrange(i as int, n as int))));
            }
            i = i + 1;
        } else if c == ')' {
            toks.push(Tok::Close);
            proof {
                lemma_view_toks_push(toks@.drop_last(), Tok::Close);
                assert(view_toks(toks@) =~= view_toks(toks@.drop_last()).push(SpecTok::Close));
                assert(view_toks(toks@) + tokenize(s@.subrange(i as int + 1, n as int)) =~= (
                view_toks(toks@.drop_last()) + tokenize(s@.subrange(i as int, n as int))));
            }
            i = i + 1;
        } else if c == '{' {
            toks.push(Tok::OpenBrace);
            proof {
                lemma_view_toks_push(toks@.drop_last(), Tok::OpenBrace);
                assert(view_toks(toks@) =~= view_toks(toks@.drop_last()).push(
                    SpecTok::OpenBrace,
                ));
                assert(view_toks(toks@) + tokenize(s@.subrange(i as int + 1, n as int)) =~= (
                view_toks(toks@.drop_last()) + tokenize(s@.subrange(i as int, n as int))));
            }
            i = i + 1;
        } else if c == '}' {
            toks.push(Tok::CloseBrace);
            proof {
                lemma_view_toks_push(toks@.drop_last(), Tok::CloseBrace);
                assert(view_toks(toks@) =~= view_toks(toks@.drop_last()).push(
                    SpecTok::CloseBrace,
                ));
                assert(view_toks(toks@) + tokenize(s@.subrange(i as int + 1, n as int)) =~= (
                view_toks(toks@.drop_last()) + tokenize(s@.subrange(i as int, n as int))));
            }
            i = i + 1;
        } else {
            let mut j = i + 1;
            while j < n && is_word_char_exec(chars[j])
                invariant
                    n == s@.len(),
                    chars@ == s@,
                    i < j <= n,
                    forall|m: int| i <= m < j ==> is_word_char(#[trigger] s@[m]),
                decreases n - j,
            {
                j = j + 1;
            }
            proof {
                assert(j == n || !is_word_char(s@[j as int]));
            }
            proof {
                assert forall|m: int| 0 <= m < j - i implies is_word_char(
                    #[trigger] rest[m],
                ) by {
                    assert(rest[m] == s@[i + m]);
                }
                if j < n {
                    assert(rest[j - i] == s@[j as int]);
                }
                lemma_word_len_exact(rest, j - i);
            }
            let word = s.substring_char(i, j);
            toks.push(Tok::Word(word.to_owned()));
            proof {
                let w = toks@.last();
                lemma_view_toks_push(toks@.drop_last(), w);
                assert(view_toks(toks@) =~= view_toks(toks@.drop_last()).push(w@));
                assert(rest.subrange(0, word_len(rest)) =~= s@.subrange(i as int, j as int));
                assert(rest.subrange(word_len(rest), rest.len() as int) =~= s@.subrange(
                    j as int,
                    n as int,
                ));
                assert(view_toks(toks@) + tokenize(s@.subrange(j as int, n as int)) =~= (
                view_toks(toks@.drop_last()) + tokenize(s@.subrange(i as int, n as int))));
            }
            i = j;
        }
    }
    proof {
        assert(s@.subrange(n as int, n as int) =~= Seq::<char>::empty());
        assert(view_toks(toks@) + tokenize(s@.subrange(n as int, n as int)) =~= view_toks(
            toks@,
        ));
    }
    toks
}

/// Mapping the view over a pushed token is pushing the token's view.
proof fn lemma_view_toks_push(ts: Seq<Tok>, t: Tok)
    ensures
        view_toks(ts.push(t)) == view_toks(ts).push(t@),
{
    assert(view_toks(ts.push(t)) =~= view_toks(ts).push(t@));
}

/// Whether `c` is a decimal digit.
pub open spec fn is_digit(c: char) -> bool {
    48 <= c as int <= 57
}

/// The value of the digit `c`.
pub open spec fn digit_val(c: char) -> int {
    c as int - 48
}

/// Whether every character of `w` is a decimal digit.
pub open spec fn all_digits(w: Seq<char>) -> bool {
    forall|i: int| 0 <= i < w.len() ==> is_digit(#[trigger] w[i])
}

/// Whether `w` has the shape of a number: an optional leading minus, then
/// one or more digits and nothing else.
pub open spec fn is_num_token(w: Seq<char>) -> bool {
    w.len() > 0 && if w[0] == '-' {
        w.len() >= 2 && all_digits(w.subrange(1, w.len() as int))
    } else {
        all_digits(w)
    }
}

/// The value of a run of digits, most significant first.
pub open spec fn digits_val(w: Seq<char>) -> int
    decreases w.len(),
{
    if w.len() == 0 {
        0
    } else {
        digits_val(w.subrange(0, w.len() - 1)) * 10 + digit_val(w[w.len() - 1])
    }
}

/// The value of a number-shaped word.
pub open spec fn num_val(w: Seq<char>) -> int {
    if w.len() > 0 && w[0] == '-' {
        -digits_val(w.subrange(1, w.len() as int))
    } else {
        digits_val(w)
    }
}

/// A run of digits has a value of at least zero.
proof fn lemma_digits_val_nonneg(w: Seq<char>)
    requires
        all_digits(w),
    ensures
        digits_val(w) >= 0,
    decreases w.len(),
{
    if w.len() > 0 {
        let front = w.subrange(0, w.len() - 1);
        assert forall|i: int| 0 <= i < front.len() implies is_digit(#[trigger] front[i]) by {
            assert(front[i] == w[i]);
        }
        lemma_digits_val_nonneg(front);
    }
}

/// A prefix of a run of digits has a value no larger than the whole run.
proof fn lemma_digits_val_prefix_le(w: Seq<char>, m: int)
    requires
        all_digits(w),
        0 <= m <= w.len(),
    ensures
        digits_val(w.subrange(0, m)) <= digits_val(w),
    decreases w.len() - m,
{
    if m < w.len() {
        let front = w.subrange(0, w.len() - 1);
        assert forall|i: int| 0 <= i < front.len() implies is_digit(#[trigger] front[i]) by {
            assert(front[i] == w[i]);
        }
        lemma_digits_val_nonneg(front);
        assert(digits_val(w) == digits_val(front) * 10 + digit_val(w[w.len() - 1]));
        assert(digits_val(front) * 10 >= digits_val(front));
        assert(digit_val(w[w.len() - 1]) >= 0);
        lemma_digits_val_prefix_le(front, m);
        assert(front.subrange(0, m) =~= w.subrange(0, m));
    } else {
        assert(w.subrange(0, w.len() as int) =~= w);
    }
}

/// The model of a parse failure.
pub enum SpecParseErr {
    /// The text does not match the grammar.
    Syntax,
    /// A number-shaped word (the payload) does not fit 64 bits.
    Num(Seq<char>),
}

/// Why parsing failed.
#[derive(Debug, PartialEq, Eq)]
pub enum ParseErr {
    /// The text does not match the grammar.
    Syntax,
    /// A number-shaped word (the payload) does not fit 64 bits.
    Num(String),
}

impl View for ParseErr {
    type V = SpecParseErr;

    open spec fn view(&self) -> SpecParseErr {
        match self {
            ParseErr::Syntax => SpecParseErr::Syntax,
            ParseErr::Num(w) => SpecParseErr::Num(w@),
        }
    }
}

/// The model of a parse outcome.
pub open spec fn parse_res_view(r: Result<Value, ParseErr>) -> Result<SpecValue, SpecParseErr> {
    match r {
        Ok(v) => Ok(v@),
        Err(e) => Err(e@),
    }
}

/// The value a word stands for: a number when it has number shape and fits
/// 64 bits, a failure when it has number shape and does not, and otherwise
/// a symbol.
pub open spec fn classify_word(w: Seq<char>) -> Result<SpecValue, SpecParseErr> {
    if is_num_token(w) {
        if crate::semantics::in_i64(num_val(w)) {
            Ok(SpecValue::Num(num_val(w)))
        } else {
            Err(SpecParseErr::Num(w))
        }
    } else {
        Ok(SpecValue::Sym(w))
    }
}

/// Whether `c` is a decimal digit.
fn is_digit_exec(c: char) -> (r: bool)
    ensures
        r == is_digit(c),
{
    let u = c as u32;
    48 <= u && u <= 57
}

/// The value `word` stands for, exactly as [`classify_word`] reads it.
fn word_to_expr(word: String) -> (r: Result<Value, ParseErr>)
    ensures
        parse_res_view(r) == classify_word(word@),
{
    let w = str_to_chars(word.as_str());
    let n = w.len();
    if n == 0 {
        return Ok(Value::Sym(word));
    }
    let neg = w[0] == '-';
    let start: usize = if neg {
        1
    } else {
        0
    };
    if neg && n == 1 {
        return Ok(Value::Sym(word));
    }
    let ghost digits = word@.subrange(start as int, n as int);
    let mut k: usize = start;
    while k < n
        invariant
            w@ == word@,
            n == word@.len(),
            start <= k <= n,
            start <= 1,
            start < n,
            neg ==> start == 1 && word@[0] == '-',
            !neg ==> start == 0 && word@[0] != '-',
            digits == word@.subrange(start as int, n as int),
            forall|m: int| start <= m < k ==> is_digit(#[trigger] word@[m]),
        decreases n - k,
    {
        if !is_digit_exec(w[k]) {
            proof {
                assert(!is_digit(word@[k as int]));
                if neg {
                    assert(digits[k - 1] == word@[k as int]);
                    assert(!all_digits(word@.subrange(1, word@.len() as int)));
                } else {
                    assert(!all_digits(word@));
                }
                assert(!is_num_token(word@));
            }
            return Ok(Value::Sym(word));
        }
        k = k + 1;
    }
    proof {
        assert forall|m: int| 0 <= m < digits.len() implies is_digit(#[trigger] digits[m]) by {
            assert(digits[m] == word@[start + m]);
        }
        assert(is_num_token(word@));
        if neg {
            assert(num_val(word@) == -digits_val(digits));
        } else {
            assert(word@.subrange(0, n as int) =~= word@);
            assert(num_val(word@) == digits_val(digits));
        }
    }
    let mut acc: u64 = 0;
    let mut k2: usize = start;
    while k2 < n
        invariant
            w@ == word@,
            n == word@.len(),
            start <= k2 <= n,
            start < n,
            digits == word@.subrange(start as int, n as int),
            all_digits(digits),
            forall|m: int| start <= m < n ==> is_digit(#[trigger] word@[m]),
            acc as int == digits_val(word@.subrange(start as int, k2 as int)),
            crate::semantics::in_i64(num_val(word@)) ==> !(num_val(word@)
                > 0x7fff_ffff_ffff_ffff) && !(num_val(word@) < -0x8000_0000_0000_0000),
            is_num_token(word@),
            neg ==> start == 1 && word@[0] == '-' && num_val(word@) == -digits_val(digits),
            !neg ==> start == 0 && word@[0] != '-' && num_val(word@) == digits_val(digits),
        decreases n - k2,
    {
        let c = w[k2];
        let d: u64 = (c as u32 - 48) as u64;
        let ghost prefix = word@.subrange(start as int, k2 as int);
        let ghost prefix2 = word@.subrange(start as int, k2 as int + 1);
        proof {
            assert(prefix2.subrange(0, prefix2.len() - 1) =~= prefix);
            assert(prefix2[prefix2.len() - 1] == word@[k2 as int]);
            assert(is_digit(word@[k2 as int]));
            assert(digits_val(prefix2) == digits_val(prefix) * 10 + digit_val(word@[k2 as int]));
        }
        let stepped = match acc.checked_mul(10) {
            Some(m) => m.checked_add(d),
            None => None,
        };
        match stepped {
            Some(a) => {
                acc = a;
            },
            None => {
                proof {
                    assert(digits_val(prefix2) > u64::MAX as int);
                    assert(prefix2 =~= digits.subrange(0, k2 as int + 1 - start));
                    lemma_digits_val_prefix_le(digits, k2 as int + 1 - start);
                    assert(digits_val(digits) > u64::MAX as int);
                    assert(!crate::semantics::in_i64(num_val(word@)));
                }
                return Err(ParseErr::Num(word));
            },
        }
        k2 = k2 + 1;
    }
    proof {
        assert(word@.subrange(start as int, n as int) =~= digits);
        assert(acc as int == digits_val(digits));
    }
    if neg {
        if acc > 9223372036854775808u64 {
            proof {
                assert(!crate::semantics::in_i64(num_val(word@)));
            }
            Err(ParseErr::Num(word))
        } else if acc == 9223372036854775808u64 {
            Ok(Value::Num(i64::MIN))
        } else {
            Ok(Value::Num(-(acc as i64)))
        }
    } else {
        if acc > 9223372036854775807u64 {
            proof {
                assert(!crate::semantics::in_i64(num_val(word@)));
            }
            Err(ParseErr::Num(word))
        } else {
            Ok(Value::Num(acc as i64))
        }
    }
}

/// The models of the parser's stack of open expressions: for each open
/// delimiter, whether it was a brace and the values gathered before it.
pub open spec fn view_stack(st: Seq<(bool, Vec<Value>)>) -> Seq<(bool, Seq<SpecValue>)> {
    st.map_values(|e: (bool, Vec<Value>)| (e.0, view_values(e.1@)))
}

/// The tokens from `i` on folded into one value, given the enclosing open
/// expressions `stack` and the values `cur` gathered since the innermost
/// one. A word stands for what [`classify_word`] says; `(` and `{` open an
/// expression; `)` and `}` close the matching one; what remains open at the
/// end, or closes without opening, is a syntax failure; the whole line is
/// one top-level call expression.
pub open spec fn parse_toks(
    toks: Seq<SpecTok>,
    i: int,
    stack: Seq<(bool, Seq<SpecValue>)>,
    cur: Seq<SpecValue>,
) -> Result<SpecValue, SpecParseErr>
    decreases toks.len() - i,
{
    if i < 0 || i >= toks.len() {
        if stack.len() == 0 {
            Ok(SpecValue::Call(cur))
        } else {
            Err(SpecParseErr::Syntax)
        }
    } else {
        match toks[i] {
            SpecTok::Word(w) => match classify_word(w) {
                Ok(v) => parse_toks(toks, i + 1, stack, cur.push(v)),
                Err(e) => Err(e),
            },
            SpecTok::Open => parse_toks(toks, i + 1, stack.push((false, cur)), Seq::empty()),
            SpecTok::OpenBrace => parse_toks(toks, i + 1, stack.push((true, cur)), Seq::empty()),
            SpecTok::Close => {
                if stack.len() > 0 && !stack.last().0 {
                    parse_toks(
                        toks,
                        i + 1,
                        stack.drop_last(),
                        stack.last().1.push(SpecValue::Call(cur)),
                    )
                } else {
                    Err(SpecParseErr::Syntax)
                }
            },
            SpecTok::CloseBrace => {
                if stack.len() > 0 && stack.last().0 {
                    parse_toks(
                        toks,
                        i + 1,
                        stack.drop_last(),
                        stack.last().1.push(SpecValue::List(cur)),
                    )
                } else {
                    Err(SpecParseErr::Syntax)
                }
            },
        }
    }
}

/// The one value a whole line of text stands for.
pub open spec fn parse_text(t: Seq<char>) -> Result<SpecValue, SpecParseErr> {
    parse_toks(tokenize(t), 0, Seq::empty(), Seq::empty())
}

/// The tokens folded into one value, exactly as [`parse_toks`] folds them.
#[verifier::loop_isolation(false)]
pub(crate) fn parse_tokens(toks: Vec<Tok>) -> (r: Result<Value, ParseErr>)
    ensures
        parse_res_view(r) == parse_toks(
            view_toks(toks@),
            0,
            Seq::empty(),
            Seq::empty(),
        ),
{
    let ghost tv = view_toks(toks@);
    let mut stack: Vec<(bool, Vec<Value>)> = Vec::new();
    let mut cur: Vec<Value> = Vec::new();
    let mut i: usize = 0;
    proof {
        crate::value::lemma_view_values(cur@);
        assert(view_values(cur@) =~= Seq::<SpecValue>::empty());
        assert(view_stack(stack@) =~= Seq::<(bool, Seq<SpecValue>)>::empty());
    }
    while i < toks.len()
        invariant
            i <= toks@.len(),
            parse_toks(tv, 0, Seq::empty(), Seq::empty()) == parse_toks(
                tv,
                i as int,
                view_stack(stack@),
                view_values(cur@),
            ),
        decreases toks@.len() - i,
    {
        proof {
            assert(tv[i as int] == toks@[i as int]@);
        }
        match &toks[i] {
            Tok::Word(w) => {
                match word_to_expr(w.clone()) {
                    Ok(v) => {
                        let ghost before = cur@;
                        cur.push(v);
                        proof {
                            crate::value::lemma_view_values_push(before, cur@.last());
                        }
                    },
                    Err(e) => {
                        return Err(e);
                    },
                }
            },
            Tok::Open => {
                let saved = cur;
                cur = Vec::new();
                let ghost st_before = stack@;
                stack.push((false, saved));
                proof {
                    assert(view_stack(stack@) =~= view_stack(st_before).push(
                        (false, view_values(stack@.last().1@)),
                    ));
                    crate::value::lemma_view_values(cur@);
                    assert(view_values(cur@) =~= Seq::<SpecValue>::empty());
                }
            },
            Tok::OpenBrace => {
                let saved = cur;
                cur = Vec::new();
                let ghost st_before = stack@;
                stack.push((true, saved));
                proof {
                    assert(view_stack(stack@) =~= view_stack(st_before).push(
                        (true, view_values(stack@.last().1@)),
                    ));
                    crate::value::lemma_view_values(cur@);
                    assert(view_values(cur@) =~= Seq::<SpecValue>::empty());
                }
            },
            Tok::Close => {
                let ghost st_before = stack@;
                match stack.pop() {
                    Some(top) => {
                        let (is_brace, saved) = top;
                        if is_brace {
                            return Err(ParseErr::Syntax);
                        }
                        proof {
                            assert(view_stack(st_before).last() == (
                                false,
                                view_values(saved@),
                            ));
                            assert(view_stack(stack@) =~= view_stack(st_before).drop_last());
                        }
                        let done = Value::Sexpr(Sexpr(cur));
                        cur = saved;
                        let ghost before = cur@;
                        cur.push(done);
                        proof {
                            crate::value::lemma_view_values_push(before, cur@.last());
                        }
                    },
                    None => {
                        return Err(ParseErr::Syntax);
                    },
                }
            },
            Tok::CloseBrace => {
                let ghost st_before = stack@;
                match stack.pop() {
                    Some(top) => {
                        let (is_brace, saved) = top;
                        if !is_brace {
                            return Err(ParseErr::Syntax);
                        }
                        proof {
                            assert(view_stack(st_before).last() == (
                                true,
                                view_values(saved@),
                            ));
                            assert(view_stack(stack@) =~= view_stack(st_before).drop_last());
                        }
                        let done = Value::Qexpr(Qexpr(cur));
                        cur = saved;
                        let ghost before = cur@;
                        cur.push(done);
                        proof {
                            crate::value::lemma_view_values_push(before, cur@.last());
                        }
                    },
                    None => {
                        return Err(ParseErr::Syntax);
                    },
                }
            },
        }
        i = i + 1;
    }
    if stack.len() == 0 {
        Ok(Value::Sexpr(Sexpr(cur)))
    } else {
        Err(ParseErr::Syntax)
    }
}

/// The one value a whole line of text stands for, exactly as
/// [`parse_text`] reads it.
pub fn parse_line(s: &str) -> (r: Result<Value, ParseErr>)
    ensures
        parse_res_view(r) == parse_text(s@),
{
    let toks = tokenize_str(s);
    parse_tokens(toks)
}

} // verus!
