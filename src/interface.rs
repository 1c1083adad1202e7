//! The data a template is rendered against: typed variables in a context,
//! and the operations a template registry offers.
use vstd::prelude::*;
use crate::error::MinilateError;
use crate::text::{lemma_name_lt_transitive, lemma_name_order, name_less, name_lt, owned, same_text};

verus! {

/// The declared type of a context variable, which decides how it may be used.
#[derive(Debug, Copy, Clone, PartialEq, Eq, PartialOrd, Ord, Hash, Structural)]
pub enum VariableTy {
    /// Plain text, substituted by `{{ name }}`.
    String,
    /// A flag: true when its data is `true`, `1` or `yes`.
    Boolean,
    /// A comma-separated list, iterated by `{{% for %}}`.
    Iterable,
}

/// The model of a `Variable`: its declared type and its data, if any.
pub struct VarModel {
    pub ty: VariableTy,
    pub data: Option<Seq<char>>,
}

impl VariableTy {
    /// A variable of this type holding `data`.
    pub fn with_data(self, data: &str) -> (r: Variable)
        ensures
            r@ == (VarModel { ty: self, data: Some(data@) }),
    {
        Variable { ty: self, data: Some(owned(data)) }
    }

    /// A variable of this type that holds no data at all.
    pub fn without_data(self) -> (r: Variable)
        ensures
            r@ == (VarModel { ty: self, data: None }),
    {
        Variable { ty: self, data: None }
    }
}

/// A context entry: a declared type and optional text data.
#[derive(Debug, Clone, PartialEq, Eq, Hash)]
pub struct Variable {
    ty: VariableTy,
    data: Option<String>,
}

impl View for Variable {
    type V = VarModel;

    closed spec fn view(&self) -> VarModel {
        VarModel {
            ty: self.ty,
            data: match self.data {
                Some(d) => Some(d@),
                None => None,
            },
        }
    }
}

impl Variable {
    /// The declared type.
    pub fn ty(&self) -> (r: VariableTy)
        ensures
            r == self@.ty,
    {
        self.ty
    }

    /// The data, if any.
    pub fn data(&self) -> (r: Option<&str>)
        ensures
            match r {
                Some(d) => self@.data == Some(d@),
                None => self@.data is None,
            },
    {
        match &self.data {
            Some(d) => Some(d.as_str()),
            None => None,
        }
    }

    /// A copy of this variable.
    pub(crate) fn duplicate(&self) -> (r: Variable)
        ensures
            r == *self,
    {
        let data = match &self.data {
            Some(d) => Some(d.clone()),
            None => None,
        };
        Variable { ty: self.ty, data }
    }

    /// Whether two variables have the same type and data.
    pub(crate) fn same_as(&self, other: &Variable) -> (r: bool)
        ensures
            r == (self@ == other@),
    {
        if self.ty != other.ty {
            return false;
        }
        match (&self.data, &other.data) {
            (Some(a), Some(b)) => same_text(a, b),
            (None, None) => true,
            _ => false,
        }
    }

    /// The data, if any, as a string reference.
    pub(crate) fn data_string(&self) -> (r: Option<&String>)
        ensures
            match r {
                Some(d) => self@.data == Some(d@),
                None => self@.data is None,
            },
    {
        match &self.data {
            Some(d) => Some(d),
            None => None,
        }
    }
}

/// The first entry of `s` named `k`.
pub open spec fn lookup(s: Seq<(String, Variable)>, k: Seq<char>) -> Option<VarModel>
    decreases s.len(),
{
    if s.len() == 0 {
        None
    } else if s[0].0@ == k {
        Some(s[0].1@)
    } else {
        lookup(s.subrange(1, s.len() as int), k)
    }
}

/// Variables by name, each name at most once.
#[derive(Debug, Clone, PartialEq, Eq, Hash, Default)]
pub struct Context {
    entries: Vec<(String, Variable)>,
}

impl View for Context {
    type V = Map<Seq<char>, VarModel>;

    closed spec fn view(&self) -> Map<Seq<char>, VarModel> {
        Map::new(|k: Seq<char>| lookup(self.entries@, k) is Some, |k: Seq<char>| lookup(self.entries@, k)->Some_0)
    }
}

proof fn lemma_lookup_index(s: Seq<(String, Variable)>, k: Seq<char>, i: int)
    requires
        0 <= i < s.len(),
        s[i].0@ == k,
        forall|j: int| 0 <= j < i ==> s[j].0@ != k,
    ensures
        lookup(s, k) == Some(s[i].1@),
    decreases i,
{
    if i > 0 {
        let t = s.subrange(1, s.len() as int);
        assert forall|j: int| 0 <= j < i - 1 implies t[j].0@ != k by {
            assert(t[j] == s[j + 1]);
        }
        lemma_lookup_index(t, k, i - 1);
    }
}

/// Some entry of `v` is named `k`.
pub open spec fn listed(v: Seq<(String, Variable)>, k: Seq<char>) -> bool {
    exists|a: int| 0 <= a < v.len() && v[a].0@ == k
}

fn name_listed(v: &Vec<(String, Variable)>, name: &String) -> (r: bool)
    ensures
        r == listed(v@, name@),
{
    let mut a: usize = 0;
    while a < v.len()
        invariant
            a <= v@.len(),
            forall|b: int| 0 <= b < a ==> v@[b].0@ != name@,
        decreases v@.len() - a,
    {
        if same_text(&v[a].0, name) {
            return true;
        }
        a = a + 1;
    }
    false
}

proof fn lemma_lookup_some(s: Seq<(String, Variable)>, k: Seq<char>)
    requires
        lookup(s, k) is Some,
    ensures
        exists|j: int| 0 <= j < s.len() && s[j].0@ == k,
    decreases s.len(),
{
    if s[0].0@ != k {
        let t = s.subrange(1, s.len() as int);
        lemma_lookup_some(t, k);
        let j = choose|j: int| 0 <= j < t.len() && t[j].0@ == k;
        assert(s[j + 1] == t[j]);
    }
}

proof fn lemma_lookup_absent(s: Seq<(String, Variable)>, k: Seq<char>)
    requires
        forall|j: int| 0 <= j < s.len() ==> s[j].0@ != k,
    ensures
        lookup(s, k) is None,
    decreases s.len(),
{
    if s.len() > 0 {
        let t = s.subrange(1, s.len() as int);
        assert forall|j: int| 0 <= j < t.len() implies t[j].0@ != k by {
            assert(t[j] == s[j + 1]);
        }
        lemma_lookup_absent(t, k);
    }
}

proof fn lemma_lookup_update(s: Seq<(String, Variable)>, i: int, e: (String, Variable), k: Seq<char>)
    requires
        0 <= i < s.len(),
        s[i].0@ == e.0@,
        forall|j: int| 0 <= j < i ==> s[j].0@ != e.0@,
    ensures
        lookup(s.update(i, e), k) == if k == e.0@ {
            Some(e.1@)
        } else {
            lookup(s, k)
        },
    decreases i,
{
    let u = s.update(i, e);
    if i == 0 {
        if k != e.0@ {
            assert(u.subrange(1, u.len() as int) =~= s.subrange(1, s.len() as int));
        }
    } else {
        let t = s.subrange(1, s.len() as int);
        assert forall|j: int| 0 <= j < i - 1 implies t[j].0@ != e.0@ by {
            assert(t[j] == s[j + 1]);
        }
        lemma_lookup_update(t, i - 1, e, k);
        assert(u.subrange(1, u.len() as int) =~= t.update(i - 1, e));
    }
}

proof fn lemma_lookup_insert(s: Seq<(String, Variable)>, j: int, e: (String, Variable), k: Seq<char>)
    requires
        0 <= j <= s.len(),
        forall|i: int| 0 <= i < j ==> s[i].0@ != e.0@,
    ensures
        lookup(s.insert(j, e), k) == if k == e.0@ {
            Some(e.1@)
        } else {
            lookup(s, k)
        },
    decreases j,
{
    let u = s.insert(j, e);
    if j == 0 {
        assert(u[0] == e);
        assert(u.subrange(1, u.len() as int) =~= s);
        if s.len() > 0 && k != e.0@ {
        }
    } else {
        let t = s.subrange(1, s.len() as int);
        assert(u[0] == s[0]);
        assert forall|i: int| 0 <= i < j - 1 implies t[i].0@ != e.0@ by {
            assert(t[i] == s[i + 1]);
        }
        lemma_lookup_insert(t, j - 1, e, k);
        assert(u.subrange(1, u.len() as int) =~= t.insert(j - 1, e));
    }
}

proof fn lemma_lookup_push(s: Seq<(String, Variable)>, e: (String, Variable), k: Seq<char>)
    requires
        forall|j: int| 0 <= j < s.len() ==> s[j].0@ != e.0@,
    ensures
        lookup(s.push(e), k) == if k == e.0@ {
            Some(e.1@)
        } else {
            lookup(s, k)
        },
    decreases s.len(),
{
    let u = s.push(e);
    let rest = u.subrange(1, u.len() as int);
    if s.len() == 0 {
        assert(u[0] == e);
        assert(rest =~= Seq::<(String, Variable)>::empty());
        assert(lookup(rest, k) is None);
    } else {
        assert(u[0] == s[0]);
        let t = s.subrange(1, s.len() as int);
        assert forall|j: int| 0 <= j < t.len() implies t[j].0@ != e.0@ by {
            assert(t[j] == s[j + 1]);
        }
        lemma_lookup_push(t, e, k);
        assert(rest =~= t.push(e));
    }
}

impl Context {
    /// An empty context.
    pub fn new() -> (r: Self)
        ensures
            r@ == Map::<Seq<char>, VarModel>::empty(),
            r.sorted(),
    {
        let r = Context { entries: Vec::new() };
        assert(r@ =~= Map::<Seq<char>, VarModel>::empty());
        r
    }

    /// Position of the entry named `name`, if any.
    fn position(&self, name: &String) -> (r: Option<usize>)
        ensures
            match r {
                Some(i) => i < self.entries@.len() && self.entries@[i as int].0@ == name@
                    && forall|j: int| 0 <= j < i ==> self.entries@[j].0@ != name@,
                None => forall|j: int|
                    0 <= j < self.entries@.len() ==> self.entries@[j].0@ != name@,
            },
    {
        let mut i: usize = 0;
        while i < self.entries.len()
            invariant
                i <= self.entries@.len(),
                forall|j: int| 0 <= j < i ==> self.entries@[j].0@ != name@,
            decreases self.entries@.len() - i,
        {
            if same_text(&self.entries[i].0, name) {
                return Some(i);
            }
            i = i + 1;
        }
        None
    }

    /// The entries are in strictly increasing name order.
    pub closed spec fn sorted(&self) -> bool {
        forall|i: int, j: int|
            0 <= i < j < self.entries@.len() ==> name_lt(self.entries@[i].0@, self.entries@[j].0@)
    }

    /// Binds `name` to `variable`, replacing an earlier binding of that name,
    /// and keeps the entries in name order; returns the context itself, for
    /// chaining.
    pub fn insert(&mut self, name: &str, variable: Variable) -> (r: &mut Self)
        ensures
            r@ == old(self)@.insert(name@, variable@),
            old(self).sorted() ==> r.sorted(),
            *final(self) == *final(r),
    {
        let key = owned(name);
        let ghost s = self.entries@;
        let mut j: usize = 0;
        while j < self.entries.len() && name_less(&self.entries[j].0, &key)
            invariant
                j <= s.len(),
                s == self.entries@,
                forall|i: int| 0 <= i < j ==> name_lt(#[trigger] s[i].0@, key@),
            decreases s.len() - j,
        {
            j = j + 1;
        }
        proof {
            assert forall|i: int| 0 <= i < j implies s[i].0@ != key@ by {
                lemma_name_order(s[i].0@, key@);
            }
        }
        let ghost e = (key, variable);
        if j < self.entries.len() && same_text(&self.entries[j].0, &key) {
            self.entries.set(j, (key, variable));
            proof {
                assert forall|k: Seq<char>| true implies lookup(self.entries@, k) == if k == name@ {
                    Some(variable@)
                } else {
                    lookup(s, k)
                } by {
                    lemma_lookup_update(s, j as int, e, k);
                }
            }
        } else {
            self.entries.insert(j, (key, variable));
            proof {
                assert forall|k: Seq<char>| true implies lookup(self.entries@, k) == if k == name@ {
                    Some(variable@)
                } else {
                    lookup(s, k)
                } by {
                    lemma_lookup_insert(s, j as int, e, k);
                }
                if old(self).sorted() {
                    let u = self.entries@;
                    assert(u =~= s.insert(j as int, e));
                    if j < s.len() {
                        lemma_name_order(s[j as int].0@, key@);
                    }
                    assert forall|a: int, b: int| 0 <= a < b < u.len() implies name_lt(u[a].0@, u[b].0@) by {
                        if a < j && b == j {
                        } else if a == j && b > j {
                            if b - 1 > j {
                                lemma_name_lt_transitive(key@, s[j as int].0@, s[b - 1].0@);
                            }
                        } else if a < j && b > j {
                            lemma_name_lt_transitive(s[a].0@, key@, s[j as int].0@);
                            if b - 1 > j {
                                lemma_name_lt_transitive(s[a].0@, s[j as int].0@, s[b - 1].0@);
                            }
                        } else if a > j {
                            assert(u[a] == s[a - 1] && u[b] == s[b - 1]);
                        } else {
                            assert(u[a] == s[a] && u[b] == s[b]);
                        }
                    }
                }
            }
        }
        assert(self@ =~= old(self)@.insert(name@, variable@));
        self
    }

    /// The variable named `name`, if any.
    pub fn get(&self, name: &str) -> (r: Option<&Variable>)
        ensures
            match r {
                Some(v) => self@.contains_key(name@) && self@[name@] == v@,
                None => !self@.contains_key(name@),
            },
    {
        let key = owned(name);
        self.get_by(&key)
    }

    /// The variable named `name`, if any.
    pub(crate) fn get_by(&self, name: &String) -> (r: Option<&Variable>)
        ensures
            match r {
                Some(v) => self@.contains_key(name@) && self@[name@] == v@,
                None => !self@.contains_key(name@),
            },
    {
        match self.position(name) {
            Some(i) => {
                proof {
                    lemma_lookup_index(self.entries@, name@, i as int);
                }
                Some(&self.entries[i].1)
            },
            None => {
                proof {
                    lemma_lookup_absent(self.entries@, name@);
                }
                None
            },
        }
    }

    /// A copy of this context.
    pub(crate) fn duplicate(&self) -> (r: Context)
        ensures
            r@ == self@,
    {
        let mut entries: Vec<(String, Variable)> = Vec::new();
        let mut i: usize = 0;
        while i < self.entries.len()
            invariant
                i <= self.entries@.len(),
                entries@ == self.entries@.subrange(0, i as int),
            decreases self.entries@.len() - i,
        {
            let name = self.entries[i].0.clone();
            let variable = self.entries[i].1.duplicate();
            entries.push((name, variable));
            assert(entries@ =~= self.entries@.subrange(0, i + 1));
            i = i + 1;
        }
        assert(entries@ =~= self.entries@);
        let r = Context { entries };
        assert(r@ =~= self@);
        r
    }

    /// The bindings of this context, each name once.
    #[verifier::rlimit(40)]
    pub fn entries(&self) -> (r: Vec<(String, Variable)>)
        ensures
            forall|i: int|
                0 <= i < r@.len() ==> self@.contains_key(#[trigger] r@[i].0@) && self@[r@[i].0@]
                    == r@[i].1@,
            forall|i: int, j: int| 0 <= i < j < r@.len() ==> r@[i].0@ != r@[j].0@,
            forall|k: Seq<char>| #[trigger] self@.contains_key(k) ==> listed(r@, k),
            self.sorted() ==> forall|i: int, j: int|
                0 <= i < j < r@.len() ==> name_lt(r@[i].0@, r@[j].0@),
    {
        let ghost es = self.entries@;
        let mut out: Vec<(String, Variable)> = Vec::new();
        let mut i: usize = 0;
        while i < self.entries.len()
            invariant
                i <= es.len(),
                es == self.entries@,
                forall|a: int| 0 <= a < out@.len() ==> #[trigger] lookup(es, out@[a].0@) == Some(out@[a].1@),
                forall|a: int, b: int| 0 <= a < b < out@.len() ==> out@[a].0@ != out@[b].0@,
                forall|j: int| 0 <= j < i ==> #[trigger] listed(out@, es[j].0@),
                self.sorted() ==> out@.len() == i && forall|a: int| 0 <= a < i ==> #[trigger] out@[a].0@ == es[a].0@,
            decreases es.len() - i,
        {
            let name = &self.entries[i].0;
            let ghost before = out@;
            proof {
                if self.sorted() {
                    assert forall|a: int| 0 <= a < before.len() implies before[a].0@ != name@ by {
                        lemma_name_order(es[a].0@, name@);
                    }
                }
            }
            if !name_listed(&out, name) {
                proof {
                    assert forall|j: int| 0 <= j < i implies es[j].0@ != name@ by {
                        assert(listed(before, es[j].0@));
                    }
                    lemma_lookup_index(es, name@, i as int);
                }
                out.push((name.clone(), self.entries[i].1.duplicate()));
                proof {
                    assert(out@[before.len() as int].0@ == name@);
                    assert forall|k: Seq<char>| listed(before, k) implies #[trigger] listed(out@, k) by {
                        let a = choose|a: int| 0 <= a < before.len() && before[a].0@ == k;
                        assert(out@[a] == before[a]);
                    }
                }
            }
            assert(listed(out@, es[i as int].0@));
            i = i + 1;
        }
        proof {
            assert forall|k: Seq<char>| #[trigger] self@.contains_key(k) implies listed(out@, k) by {
                lemma_lookup_some(es, k);
                let j = choose|j: int| 0 <= j < es.len() && es[j].0@ == k;
                assert(listed(out@, es[j].0@));
            }
        }
        out
    }

    /// Whether two contexts bind the same names to the same variables.
    pub(crate) fn same_as(&self, other: &Context) -> (r: bool)
        ensures
            r == (self@ == other@),
    {
        let mine = self.entries();
        let mut i: usize = 0;
        while i < mine.len()
            invariant
                i <= mine@.len(),
                forall|j: int| 0 <= j < mine@.len() ==> self@.contains_key(#[trigger] mine@[j].0@)
                    && self@[mine@[j].0@] == mine@[j].1@,
                forall|k: Seq<char>| #[trigger] self@.contains_key(k) ==> listed(mine@, k),
                forall|j: int| 0 <= j < i ==> other@.contains_key(#[trigger] mine@[j].0@)
                    && other@[mine@[j].0@] == self@[mine@[j].0@],
            decreases mine@.len() - i,
        {
            let ghost k = mine@[i as int].0@;
            match other.get_by(&mine[i].0) {
                None => {
                    assert(self@.contains_key(k) && !other@.contains_key(k));
                    return false;
                },
                Some(v) => {
                    if !v.same_as(&mine[i].1) {
                        assert(self@[k] != other@[k]);
                        return false;
                    }
                },
            }
            i = i + 1;
        }
        let theirs = other.entries();
        let mut j: usize = 0;
        while j < theirs.len()
            invariant
                j <= theirs@.len(),
                forall|a: int| 0 <= a < theirs@.len() ==> other@.contains_key(#[trigger] theirs@[a].0@),
                forall|k: Seq<char>| #[trigger] other@.contains_key(k) ==> listed(theirs@, k),
                forall|a: int| 0 <= a < j ==> self@.contains_key(#[trigger] theirs@[a].0@),
            decreases theirs@.len() - j,
        {
            let ghost k = theirs@[j as int].0@;
            match self.get_by(&theirs[j].0) {
                None => {
                    assert(other@.contains_key(k) && !self@.contains_key(k));
                    return false;
                },
                Some(_) => {},
            }
            j = j + 1;
        }
        proof {
            assert forall|k: Seq<char>| #[trigger] self@.contains_key(k) implies other@.contains_key(k)
                && other@[k] == self@[k] by {
                assert(listed(mine@, k));
                let a = choose|a: int| 0 <= a < mine@.len() && mine@[a].0@ == k;
                assert(other@.contains_key(mine@[a].0@));
            }
            assert forall|k: Seq<char>| #[trigger] other@.contains_key(k) implies self@.contains_key(k) by {
                assert(listed(theirs@, k));
                let a = choose|a: int| 0 <= a < theirs@.len() && theirs@[a].0@ == k;
                assert(self@.contains_key(theirs@[a].0@));
            }
            assert(self@ =~= other@);
        }
        true
    }

    /// Whether a variable named `name` is bound.
    pub fn contains(&self, name: &str) -> (r: bool)
        ensures
            r == self@.contains_key(name@),
    {
        let key = owned(name);
        match self.get_by(&key) {
            Some(_) => true,
            None => false,
        }
    }
}

/// The operations of a template registry.
pub trait MinilateInterface {
    /// Parses `content` and registers it under `name`; fails on a taken name or
    /// a parse error.
    fn add_template(&mut self, name: &str, content: &str) -> Result<(), MinilateError>;

    /// Renders the template named `template_name`; a missing context counts as empty.
    fn render(&self, template_name: &str, context: Option<&Context>) -> Result<String, MinilateError>;

    /// The variables, with the type their use needs, that the template named
    /// `template_name` still requires given `context`, sorted by name.
    fn context(&self, template_name: &str, context: &Context) -> Vec<(String, VariableTy)>;
}

} // verus!
