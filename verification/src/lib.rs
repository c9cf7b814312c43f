//! pils: a small symbolic-expression language.
//!
//! One line of text is parsed into a [`value::Value`] tree (numbers, symbols,
//! parenthesised call expressions, brace-delimited literal lists) and then
//! reduced against an [`environment::Environment`] of named bindings.

use vstd::prelude::*;

pub mod builtin;
pub mod environment;
pub mod error;
pub mod eval_error;
pub mod function;
pub mod laws;
pub mod parser;
pub mod qexpr;
pub mod render;
pub mod semantics;
pub mod sexpr;
pub mod value;

pub use function::Function;

verus! {

/// How deeply one evaluation may nest. Each entered call expression and
/// each re-entry through the `eval` builtin spends one unit; input lines
/// nest far shallower than this, and a `def`-made cycle is cut off with a
/// depth error instead of running forever.
pub const DEFAULT_FUEL: u64 = 1000;

/// How many whitespace characters stand at the front of `t`.
pub open spec fn leading_ws(t: Seq<char>) -> int
    decreases t.len(),
{
    if t.len() == 0 || !parser::is_space(t[0]) {
        0
    } else {
        1 + leading_ws(t.subrange(1, t.len() as int))
    }
}

/// How many whitespace characters stand at the back of `t`.
pub open spec fn trailing_ws(t: Seq<char>) -> int
    decreases t.len(),
{
    if t.len() == 0 || !parser::is_space(t.last()) {
        0
    } else {
        1 + trailing_ws(t.drop_last())
    }
}

/// `t` without its leading and trailing whitespace.
pub open spec fn trim_spec(t: Seq<char>) -> Seq<char> {
    if leading_ws(t) == t.len() {
        Seq::empty()
    } else {
        t.subrange(leading_ws(t), t.len() - trailing_ws(t))
    }
}

/// The front run of whitespace ends exactly at the first character that is
/// none, or at the end of the text.
proof fn lemma_leading_ws_exact(t: Seq<char>, k: int)
    requires
        0 <= k <= t.len(),
        forall|m: int| 0 <= m < k ==> parser::is_space(#[trigger] t[m]),
        k == t.len() || !parser::is_space(t[k]),
    ensures
        leading_ws(t) == k,
    decreases k,
{
    if k > 0 {
        let rest = t.subrange(1, t.len() as int);
        assert forall|m: int| 0 <= m < k - 1 implies parser::is_space(#[trigger] rest[m]) by {
            assert(rest[m] == t[m + 1]);
        }
        if k < t.len() {
            assert(rest[k - 1] == t[k]);
        }
        lemma_leading_ws_exact(rest, k - 1);
    }
}

/// The back run of whitespace starts exactly after the last character that
/// is not whitespace, or at the start of the text.
proof fn lemma_trailing_ws_exact(t: Seq<char>, k: int)
    requires
        0 <= k <= t.len(),
        forall|m: int| t.len() - k <= m < t.len() ==> parser::is_space(#[trigger] t[m]),
        k == t.len() || !parser::is_space(t[t.len() - 1 - k]),
    ensures
        trailing_ws(t) == k,
    decreases k,
{
    if k > 0 {
        assert(parser::is_space(t.last()));
        let front = t.drop_last();
        assert forall|m: int| front.len() - (k - 1) <= m < front.len() implies parser::is_space(
            #[trigger] front[m],
        ) by {
            assert(front[m] == t[m]);
        }
        if k - 1 < front.len() {
            assert(front[front.len() - 1 - (k - 1)] == t[t.len() - 1 - k]);
        }
        lemma_trailing_ws_exact(front, k - 1);
    }
}

/// `s` without its leading and trailing whitespace.
fn trim(s: &str) -> (r: &str)
    ensures
        r@ == trim_spec(s@),
{
    let chars = parser::str_to_chars(s);
    let n = chars.len();
    let mut a: usize = 0;
    while a < n && parser::is_space_exec(chars[a])
        invariant
            n == s@.len(),
            chars@ == s@,
            a <= n,
            forall|m: int| 0 <= m < a ==> parser::is_space(#[trigger] s@[m]),
        decreases n - a,
    {
        a = a + 1;
    }
    proof {
        lemma_leading_ws_exact(s@, a as int);
    }
    if a == n {
        let r = s.substring_char(0, 0);
        proof {
            assert(s@.subrange(0, 0) =~= Seq::<char>::empty());
        }
        return r;
    }
    let mut b: usize = n;
    while b > a && parser::is_space_exec(chars[b - 1])
        invariant
            n == s@.len(),
            chars@ == s@,
            a <= b <= n,
            a < n,
            !parser::is_space(s@[a as int]),
            forall|m: int| b <= m < n ==> parser::is_space(#[trigger] s@[m]),
        decreases b,
    {
        b = b - 1;
    }
    proof {
        if b == a {
            assert(parser::is_space(s@[a as int]));
            assert(false);
        }
        lemma_trailing_ws_exact(s@, n as int - b as int);
    }
    s.substring_char(a, b)
}

/// One line processed against an environment: the value it stands for,
/// evaluated under the default nesting bound; the environment keeps
/// whatever `def`s the evaluation performed, even a failed one.
pub open spec fn process_spec(text: Seq<char>, env: environment::SpecEnv) -> (Result<
    value::SpecValue,
    error::SpecError,
>, environment::SpecEnv) {
    match parser::parse_text(text) {
        Ok(v) => {
            let (r, env2) = semantics::spec_eval(v, env, DEFAULT_FUEL as nat);
            (
                match r {
                    Ok(v2) => Ok(v2),
                    Err(e) => Err(error::SpecError::Eval(e)),
                },
                env2,
            )
        },
        Err(parser::SpecParseErr::Syntax) => (Err(error::SpecError::ParseError(text)), env),
        Err(parser::SpecParseErr::Num(w)) => (Err(error::SpecError::ParseNumber(w)), env),
    }
}

/// Parse one line and evaluate it against `env`: the sole entry point of
/// the pipeline.
pub fn process(input: &str, env: &mut environment::Environment) -> (r: Result<
    value::Value,
    error::Error,
>)
    ensures
        ({
            let (sr, senv) = process_spec(input@, old(env)@);
            error::res_view(r) == sr && final(env)@ == senv
        }),
{
    match parser::parse_line(input) {
        Ok(v) => match v.eval(env) {
            Ok(v2) => Ok(v2),
            Err(e) => Err(error::Error::Eval(e)),
        },
        Err(parser::ParseErr::Syntax) => Err(error::Error::ParseError(input.to_owned())),
        Err(parser::ParseErr::Num(w)) => Err(error::Error::ParseNumber(w)),
    }
}

/// Process the trimmed line and render the outcome: the value's canonical
/// rendering, or `Error: ` and the one-line diagnostic.
pub fn process_str(line: &str, env: &mut environment::Environment) -> (r: String)
    ensures
        ({
            let (sr, senv) = process_spec(trim_spec(line@), old(env)@);
            final(env)@ == senv && r@ == match sr {
                Ok(v) => render::render_val(v),
                Err(e) => "Error: "@ + error::error_message(e),
            }
        }),
{
    let trimmed = trim(line);
    match process(trimmed, env) {
        Ok(v) => v.render(),
        Err(e) => {
            let mut s = String::from_str("Error: ");
            let msg = e.message();
            s.append(msg.as_str());
            s
        },
    }
}

} // verus!
