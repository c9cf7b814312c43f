//! The binding environment.
//!
//! A mapping from symbol name to [`Value`], seeded with the builtin
//! bindings and grown by `def`. Its model is a `Map` from the name's
//! characters to the bound value's model; a later binding of a name
//! overwrites an earlier one.

use vstd::prelude::*;

use crate::function::{Builtin, Function};
use crate::value::{SpecValue, Value};

verus! {

/// The model of an environment: names to value models.
pub type SpecEnv = Map<Seq<char>, SpecValue>;

/// The bindings, in the order they were made; a later entry for the same
/// name shadows an earlier one.
#[derive(Debug)]
pub struct Environment(pub(crate) Vec<(String, Value)>);

/// The map that a sequence of bindings denotes: each binding inserted in
/// order, so that the last binding of a name wins.
pub open spec fn bindings_map(s: Seq<(String, Value)>) -> SpecEnv
    decreases s.len(),
{
    if s.len() == 0 {
        Map::empty()
    } else {
        bindings_map(s.drop_last()).insert(s.last().0@, s.last().1@)
    }
}

/// The environment a fresh session starts from: every builtin under its
/// token, nothing else.
pub open spec fn initial_env() -> SpecEnv {
    Map::empty().insert("list"@, SpecValue::Fun(Builtin::List)).insert(
        "head"@,
        SpecValue::Fun(Builtin::Head),
    ).insert("tail"@, SpecValue::Fun(Builtin::Tail)).insert(
        "join"@,
        SpecValue::Fun(Builtin::Join),
    ).insert("eval"@, SpecValue::Fun(Builtin::Eval)).insert(
        "def"@,
        SpecValue::Fun(Builtin::Def),
    ).insert("+"@, SpecValue::Fun(Builtin::Add)).insert("-"@, SpecValue::Fun(Builtin::Sub)).insert(
        "*"@,
        SpecValue::Fun(Builtin::Mul),
    ).insert("/"@, SpecValue::Fun(Builtin::Div))
}

impl View for Environment {
    type V = SpecEnv;

    closed spec fn view(&self) -> SpecEnv {
        bindings_map(self.0@)
    }
}

impl Environment {
    /// An environment with no bindings at all.
    pub fn empty() -> (r: Self)
        ensures
            r@ == Map::<Seq<char>, SpecValue>::empty(),
    {
        Environment(Vec::new())
    }

    /// Bind `name` to `value`, overwriting any existing binding of `name`.
    pub fn insert(&mut self, name: String, value: Value)
        ensures
            final(self)@ == old(self)@.insert(name@, value@),
    {
        let ghost before = self.0@;
        self.0.push((name, value));
        proof {
            assert(self.0@.drop_last() =~= before);
        }
    }

    /// The value bound to `name`: a copy of the latest binding, or `None`
    /// when `name` is unbound.
    pub fn get(&self, name: &str) -> (r: Option<Value>)
        ensures
            match r {
                Some(v) => self@.contains_key(name@) && v@ == self@[name@],
                None => !self@.contains_key(name@),
            },
    {
        let key = name.to_owned();
        let n = self.0.len();
        proof {
            assert(self.0@.subrange(0, n as int) =~= self.0@);
        }
        self.get_in(n, &key)
    }

    /// Scan the first `i` bindings from the latest one backwards.
    fn get_in(&self, i: usize, key: &String) -> (r: Option<Value>)
        requires
            i <= self.0@.len(),
        ensures
            ({
                let m = bindings_map(self.0@.subrange(0, i as int));
                match r {
                    Some(v) => m.contains_key(key@) && v@ == m[key@],
                    None => !m.contains_key(key@),
                }
            }),
        decreases i,
    {
        if i == 0 {
            proof {
                assert(self.0@.subrange(0, 0) =~= Seq::<(String, Value)>::empty());
            }
            None
        } else {
            let entry = &self.0[i - 1];
            proof {
                let pre = self.0@.subrange(0, i as int);
                assert(pre.drop_last() =~= self.0@.subrange(0, i as int - 1));
                assert(pre.last() == self.0@[i as int - 1]);
            }
            if entry.0 == *key {
                Some(entry.1.clone())
            } else {
                self.get_in(i - 1, key)
            }
        }
    }
}

/// Every entry of a binding sequence is a key of its map.
proof fn lemma_entry_in_map(s: Seq<(String, Value)>, i: int)
    requires
        0 <= i < s.len(),
    ensures
        bindings_map(s).contains_key(s[i].0@),
    decreases s.len(),
{
    if i < s.len() - 1 {
        lemma_entry_in_map(s.drop_last(), i);
        assert(s.drop_last()[i] == s[i]);
    }
}

/// Every key of a binding sequence's map names some entry.
proof fn lemma_map_key_has_entry(s: Seq<(String, Value)>, k: Seq<char>)
    requires
        bindings_map(s).contains_key(k),
    ensures
        exists|i: int| 0 <= i < s.len() && (#[trigger] s[i]).0@ == k,
    decreases s.len(),
{
    if s.len() > 0 {
        if s.last().0@ == k {
            assert(s[s.len() - 1].0@ == k);
        } else {
            lemma_map_key_has_entry(s.drop_last(), k);
            let i = choose|i: int|
                0 <= i < s.drop_last().len() && (#[trigger] s.drop_last()[i]).0@ == k;
            assert(s[i] == s.drop_last()[i]);
        }
    }
}

/// Whether some pair of `out` carries the name `name`.
fn has_name(out: &Vec<(String, String)>, name: &String) -> (r: bool)
    ensures
        r == exists|m: int| 0 <= m < out@.len() && (#[trigger] out@[m]).0@ == name@,
{
    let mut m: usize = 0;
    while m < out.len()
        invariant
            m <= out@.len(),
            forall|j: int| 0 <= j < m ==> (#[trigger] out@[j]).0@ != name@,
        decreases out@.len() - m,
    {
        if out[m].0 == *name {
            return true;
        }
        m = m + 1;
    }
    false
}

impl Environment {
    /// Every binding except the builtins, each name once with the rendering
    /// of its current value, for display collaborators.
    #[verifier::loop_isolation(false)]
    pub fn bindings(&self) -> (r: Vec<(String, String)>)
        ensures
            forall|m: int|
                0 <= m < r@.len() ==> {
                    &&& self@.contains_key((#[trigger] r@[m]).0@)
                    &&& !(self@[r@[m].0@] is Fun)
                    &&& r@[m].1@ == crate::render::render_val(self@[r@[m].0@])
                },
            forall|m1: int, m2: int|
                0 <= m1 < m2 < r@.len() ==> (#[trigger] r@[m1]).0@ != (#[trigger] r@[m2]).0@,
            forall|k: Seq<char>|
                self@.contains_key(k) && !(#[trigger] self@[k] is Fun) ==> exists|m: int|
                    0 <= m < r@.len() && (#[trigger] r@[m]).0@ == k,
    {
        let mut out: Vec<(String, String)> = Vec::new();
        let n = self.0.len();
        let mut i = n;
        while i > 0
            invariant
                i <= n,
                forall|m: int|
                    0 <= m < out@.len() ==> {
                        &&& self@.contains_key((#[trigger] out@[m]).0@)
                        &&& !(self@[out@[m].0@] is Fun)
                        &&& out@[m].1@ == crate::render::render_val(self@[out@[m].0@])
                    },
                forall|m1: int, m2: int|
                    0 <= m1 < m2 < out@.len() ==> (#[trigger] out@[m1]).0@ != (
                    #[trigger] out@[m2]).0@,
                forall|k: Seq<char>|
                    self@.contains_key(k) && !(#[trigger] self@[k] is Fun) && (exists|j: int|
                        i <= j < n && (#[trigger] self.0@[j]).0@ == k) ==> exists|m: int|
                        0 <= m < out@.len() && (#[trigger] out@[m]).0@ == k,
            decreases i,
        {
            i = i - 1;
            let name = &self.0[i].0;
            if !has_name(&out, name) {
                match self.get(name.as_str()) {
                    Some(v) => {
                        match v {
                            Value::Fun(_) => {},
                            kept => {
                                let rendered = kept.render();
                                let ghost out_old = out@;
                                out.push((name.clone(), rendered));
                                proof {
                                    assert(out@[out@.len() - 1].0@ == self.0@[i as int].0@);
                                    assert forall|k: Seq<char>|
                                        self@.contains_key(k) && !(#[trigger] self@[k] is Fun)
                                            && (exists|j: int|
                                            i <= j < n && (#[trigger] self.0@[j]).0@
                                                == k) implies exists|m: int|
                                        0 <= m < out@.len() && (#[trigger] out@[m]).0@ == k by {
                                        if k != self.0@[i as int].0@ {
                                            let j = choose|j: int|
                                                i <= j < n && (#[trigger] self.0@[j]).0@ == k;
                                            assert(i + 1 <= j < n);
                                            let m = choose|m: int|
                                                0 <= m < out_old.len() && (
                                                #[trigger] out_old[m]).0@ == k;
                                            assert(out@[m] == out_old[m]);
                                        }
                                    }
                                }
                            },
                        }
                    },
                    None => {
                        proof {
                            lemma_entry_in_map(self.0@, i as int);
                            assert(false);
                        }
                    },
                }
            }
        }
        proof {
            assert forall|k: Seq<char>|
                self@.contains_key(k) && !(#[trigger] self@[k] is Fun) implies exists|m: int|
                0 <= m < out@.len() && (#[trigger] out@[m]).0@ == k by {
                lemma_map_key_has_entry(self.0@, k);
            }
        }
        out
    }
}

impl Default for Environment {
    /// A fresh session environment, holding exactly the builtin bindings.
    fn default() -> (r: Self)
        ensures
            r@ == initial_env(),
    {
        let mut env = Environment(Vec::new());
        env.insert(String::from_str("list"), Value::Fun(Function(Builtin::List)));
        env.insert(String::from_str("head"), Value::Fun(Function(Builtin::Head)));
        env.insert(String::from_str("tail"), Value::Fun(Function(Builtin::Tail)));
        env.insert(String::from_str("join"), Value::Fun(Function(Builtin::Join)));
        env.insert(String::from_str("eval"), Value::Fun(Function(Builtin::Eval)));
        env.insert(String::from_str("def"), Value::Fun(Function(Builtin::Def)));
        env.insert(String::from_str("+"), Value::Fun(Function(Builtin::Add)));
        env.insert(String::from_str("-"), Value::Fun(Function(Builtin::Sub)));
        env.insert(String::from_str("*"), Value::Fun(Function(Builtin::Mul)));
        env.insert(String::from_str("/"), Value::Fun(Function(Builtin::Div)));
        env
    }
}

} // verus!
