//! The canonical textual rendering of values.
//!
//! A number renders in decimal, a symbol verbatim, a call expression as
//! `( v1 v2 ... )`, a literal list as `{ v1 v2 ... }` and a builtin as the
//! token `<function>`.

use vstd::prelude::*;

use crate::qexpr::Qexpr;
use crate::sexpr::Sexpr;
use crate::value::{view_values, SpecValue, Value};

use itertools::Itertools;

verus! {

/// The decimal digit character for `d` (0 to 9).
pub open spec fn digit_char(d: int) -> char {
    if d == 0 {
        '0'
    } else if d == 1 {
        '1'
    } else if d == 2 {
        '2'
    } else if d == 3 {
        '3'
    } else if d == 4 {
        '4'
    } else if d == 5 {
        '5'
    } else if d == 6 {
        '6'
    } else if d == 7 {
        '7'
    } else if d == 8 {
        '8'
    } else {
        '9'
    }
}

/// The decimal digits of a natural number, most significant first.
pub open spec fn dec_nat(n: nat) -> Seq<char>
    decreases n,
{
    if n < 10 {
        seq![digit_char(n as int)]
    } else {
        dec_nat(n / 10).push(digit_char((n % 10) as int))
    }
}

/// The decimal rendering of an integer: a leading minus for a negative one.
pub open spec fn dec_int(n: int) -> Seq<char> {
    if n < 0 {
        seq!['-'] + dec_nat((-n) as nat)
    } else {
        dec_nat(n as nat)
    }
}

/// The renderings of `es` with one space between neighbours.
pub open spec fn render_elems(es: Seq<SpecValue>) -> Seq<char>
    decreases es, 0int,
{
    if es.len() == 0 {
        Seq::empty()
    } else if es.len() == 1 {
        render_val(es[0])
    } else {
        render_val(es[0]) + seq![' '] + render_elems(es.subrange(1, es.len() as int))
    }
}

/// The canonical rendering of a value.
pub open spec fn render_val(v: SpecValue) -> Seq<char>
    decreases v, 1int,
{
    match v {
        SpecValue::Num(n) => dec_int(n),
        SpecValue::Sym(s) => s,
        SpecValue::Call(es) => seq!['(', ' '] + render_elems(es) + seq![' ', ')'],
        SpecValue::List(es) => seq!['{', ' '] + render_elems(es) + seq![' ', '}'],
        SpecValue::Fun(_) => "<function>"@,
    }
}

/// The strings of `parts` concatenated in order with one space between
/// neighbours; nothing around them.
pub open spec fn seq_join_space(parts: Seq<Seq<char>>) -> Seq<char>
    decreases parts.len(),
{
    if parts.len() == 0 {
        Seq::empty()
    } else if parts.len() == 1 {
        parts[0]
    } else {
        parts[0] + seq![' '] + seq_join_space(parts.subrange(1, parts.len() as int))
    }
}

/// Relies on itertools' `Itertools::join`: the elements, written out in
/// order (a `String` writes its characters), with the separator between
/// each pair of neighbours and an empty result for no elements.
#[verifier::external_body]
fn join_space(parts: &Vec<String>) -> (r: String)
    ensures
        r@ == seq_join_space(parts@.map_values(|p: String| p@)),
{
    parts.iter().join(" ")
}

/// Joining the renderings of `es` with spaces is rendering `es`.
proof fn lemma_join_renders(es: Seq<SpecValue>, ps: Seq<Seq<char>>)
    requires
        ps.len() == es.len(),
        forall|i: int| 0 <= i < es.len() ==> ps[i] == render_val(#[trigger] es[i]),
    ensures
        seq_join_space(ps) == render_elems(es),
    decreases es.len(),
{
    if es.len() > 1 {
        lemma_join_renders(
            es.subrange(1, es.len() as int),
            ps.subrange(1, ps.len() as int),
        );
        assert forall|i: int| 0 <= i < es.len() - 1 implies ps.subrange(1, ps.len() as int)[i]
            == render_val(#[trigger] es.subrange(1, es.len() as int)[i]) by {
            assert(es.subrange(1, es.len() as int)[i] == es[i + 1]);
        }
    }
}

/// The decimal string of a natural number below 10.
fn digit_str(d: u64) -> (r: &'static str)
    requires
        d < 10,
    ensures
        r@ == seq![digit_char(d as int)],
{
    let r: &'static str = if d == 0 {
        "0"
    } else if d == 1 {
        "1"
    } else if d == 2 {
        "2"
    } else if d == 3 {
        "3"
    } else if d == 4 {
        "4"
    } else if d == 5 {
        "5"
    } else if d == 6 {
        "6"
    } else if d == 7 {
        "7"
    } else if d == 8 {
        "8"
    } else {
        "9"
    };
    proof {
        reveal_strlit("0");
        reveal_strlit("1");
        reveal_strlit("2");
        reveal_strlit("3");
        reveal_strlit("4");
        reveal_strlit("5");
        reveal_strlit("6");
        reveal_strlit("7");
        reveal_strlit("8");
        reveal_strlit("9");
        assert(r@ =~= seq![digit_char(d as int)]);
    }
    r
}

/// The decimal string of a natural number.
fn dec_u64(m: u64) -> (r: String)
    ensures
        r@ == dec_nat(m as nat),
    decreases m,
{
    if m < 10 {
        String::from_str(digit_str(m))
    } else {
        let mut s = dec_u64(m / 10);
        let ghost prefix = s@;
        s.append(digit_str(m % 10));
        proof {
            assert(s@ =~= prefix.push(digit_char((m % 10) as int)));
        }
        s
    }
}

/// The decimal string of a 64-bit signed integer.
pub(crate) fn num_to_string(n: i64) -> (r: String)
    ensures
        r@ == dec_int(n as int),
{
    if n >= 0 {
        dec_u64(n as u64)
    } else {
        let mag: u64 = ((-(n + 1)) as u64) + 1;
        assert(mag as int == -(n as int));
        let mut s = String::from_str("-");
        let digits = dec_u64(mag);
        s.append(digits.as_str());
        proof {
            reveal_strlit("-");
            assert(s@ =~= seq!['-'] + dec_nat((-(n as int)) as nat));
        }
        s
    }
}

/// The renderings of the values of `v`, one string each.
fn render_parts(v: &Vec<Value>) -> (r: Vec<String>)
    ensures
        r@.len() == v@.len(),
        forall|i: int| 0 <= i < v@.len() ==> #[trigger] r@[i]@ == render_val(v@[i]@),
    decreases v@, 2int,
{
    let mut out: Vec<String> = Vec::new();
    let mut i: usize = 0;
    while i < v.len()
        invariant
            i <= v@.len(),
            out@.len() == i,
            forall|j: int| 0 <= j < i ==> #[trigger] out@[j]@ == render_val(v@[j]@),
        decreases v@.len() - i,
    {
        out.push(v[i].render());
        i = i + 1;
    }
    out
}

/// Wrap the joined renderings of `v` in the delimiters of a call expression
/// or a literal list.
fn render_wrapped(v: &Vec<Value>, open_delim: &str, close_delim: &str) -> (r: String)
    requires
        open_delim@.len() == 1,
        close_delim@.len() == 1,
    ensures
        r@ == seq![open_delim@[0], ' '] + render_elems(view_values(v@)) + seq![
            ' ',
            close_delim@[0],
        ],
    decreases v@, 3int,
{
    let parts = render_parts(v);
    let joined = join_space(&parts);
    let mut out = String::from_str(open_delim);
    out.append(" ");
    out.append(joined.as_str());
    out.append(" ");
    out.append(close_delim);
    proof {
        crate::value::lemma_view_values(v@);
        let es = view_values(v@);
        let ps = parts@.map_values(|p: String| p@);
        assert forall|i: int| 0 <= i < es.len() implies ps[i] == render_val(
            #[trigger] es[i],
        ) by {
            assert(parts@[i]@ == render_val(v@[i]@));
        }
        lemma_join_renders(es, ps);
        reveal_strlit(" ");
        assert(out@ =~= seq![open_delim@[0], ' '] + render_elems(view_values(v@)) + seq![
            ' ',
            close_delim@[0],
        ]);
    }
    out
}

impl Value {
    /// The canonical rendering of this value.
    pub fn render(&self) -> (r: String)
        ensures
            r@ == render_val(self@),
        decreases self, 1int,
    {
        match self {
            Value::Num(n) => num_to_string(*n),
            Value::Sym(s) => s.clone(),
            Value::Sexpr(s) => s.render(),
            Value::Qexpr(q) => q.render(),
            Value::Fun(_) => String::from_str("<function>"),
        }
    }
}

impl Sexpr {
    /// The rendering `( v1 v2 ... )` of this call expression.
    pub fn render(&self) -> (r: String)
        ensures
            r@ == render_val(SpecValue::Call(self@)),
        decreases self, 4int,
    {
        proof {
            reveal_strlit("(");
            reveal_strlit(")");
        }
        let r = render_wrapped(&self.0, "(", ")");
        proof {
            assert(r@ =~= render_val(SpecValue::Call(self@)));
        }
        r
    }
}

impl Qexpr {
    /// The rendering `{ v1 v2 ... }` of this literal list.
    pub fn render(&self) -> (r: String)
        ensures
            r@ == render_val(SpecValue::List(self@)),
        decreases self, 4int,
    {
        proof {
            reveal_strlit("{");
            reveal_strlit("}");
        }
        let r = render_wrapped(&self.0, "{", "}");
        proof {
            assert(r@ =~= render_val(SpecValue::List(self@)));
        }
        r
    }
}

} // verus!
