//! Character-level helpers shared by the parser and the renderer.
use vstd::prelude::*;

verus! {

/// ASCII whitespace, as `char::is_ascii_whitespace` defines it.
pub open spec fn is_space(c: char) -> bool {
    c == ' ' || c == '\t' || c == '\n' || c == '\x0C' || c == '\r'
}

/// Characters allowed in an identifier: ASCII letters and digits, `_` and `.`.
pub open spec fn is_ident_char(c: char) -> bool {
    ('a' <= c && c <= 'z') || ('A' <= c && c <= 'Z') || ('0' <= c && c <= '9') || c == '_'
        || c == '.'
}

/// `t` occurs in `s` starting at position `p`.
pub open spec fn has_at(s: Seq<char>, p: int, t: Seq<char>) -> bool {
    0 <= p && p + t.len() <= s.len() && s.subrange(p, p + t.len()) == t
}

/// Clamps a count to what a `usize` holds.
pub open spec fn as_count(x: int) -> usize {
    if x > usize::MAX {
        usize::MAX
    } else if x < 0 {
        0
    } else {
        x as usize
    }
}

pub fn space_char(c: char) -> (r: bool)
    ensures
        r == is_space(c),
{
    c == ' ' || c == '\t' || c == '\n' || c == '\x0C' || c == '\r'
}

pub fn ident_char(c: char) -> (r: bool)
    ensures
        r == is_ident_char(c),
{
    ('a' <= c && c <= 'z') || ('A' <= c && c <= 'Z') || ('0' <= c && c <= '9') || c == '_'
        || c == '.'
}

/// The characters of `s`, in order.
pub fn chars_of(s: &str) -> (r: Vec<char>)
    ensures
        r@ == s@,
{
    let mut v: Vec<char> = Vec::new();
    for c in it: s.chars()
        invariant
            v@ == it.seq().subrange(0, it.index() as int),
    {
        v.push(c);
    }
    assert(v@ =~= s@);
    v
}

/// Relies on `FromIterator<char>` for `String` (`Iterator::collect`): the
/// string holds the given characters in order.
#[verifier::external_body]
pub(crate) fn collect_string(v: &Vec<char>) -> (r: String)
    ensures
        r@ == v@,
{
    v.iter().collect()
}

/// The characters `s[a..b]` as a new string.
pub fn slice_string(s: &Vec<char>, a: usize, b: usize) -> (r: String)
    requires
        a <= b <= s@.len(),
    ensures
        r@ == s@.subrange(a as int, b as int),
{
    let mut v: Vec<char> = Vec::new();
    let mut i: usize = a;
    while i < b
        invariant
            a <= i <= b <= s@.len(),
            v@ == s@.subrange(a as int, i as int),
        decreases b - i,
    {
        v.push(s[i]);
        i = i + 1;
    }
    assert(v@ =~= s@.subrange(a as int, b as int));
    collect_string(&v)
}

/// Whether `t` occurs in `s` at position `p`.
pub fn str_at(s: &Vec<char>, p: usize, t: &str) -> (r: bool)
    ensures
        r == has_at(s@, p as int, t@),
{
    let n = t.unicode_len();
    if p > s.len() || n > s.len() - p {
        return false;
    }
    let mut i: usize = 0;
    while i < n
        invariant
            n == t@.len(),
            p + n <= s@.len(),
            i <= n,
            forall|j: int| 0 <= j < i ==> s@[p + j] == t@[j],
        decreases n - i,
    {
        let len = s.len();
        assert(p + i < len);
        if s[p + i] != t.get_char(i) {
            assert(s@.subrange(p as int, p + n)[i as int] != t@[i as int]);
            return false;
        }
        i = i + 1;
    }
    assert(s@.subrange(p as int, p + n) =~= t@);
    true
}

/// A string equal to the literal `t`.
pub fn owned(t: &str) -> (r: String)
    ensures
        r@ == t@,
{
    String::from_str(t)
}

/// Whether a string holds no characters.
pub fn is_blank(t: &String) -> (r: bool)
    ensures
        r == (t@.len() == 0),
{
    t.as_str().is_empty()
}

/// Whether two strings hold the same characters.
pub fn same_text(a: &String, b: &String) -> (r: bool)
    ensures
        r == (a@ == b@),
{
    *a == *b
}

/// Lexicographic order of names by character code, as `str`'s `Ord` orders them.
pub open spec fn name_lt(a: Seq<char>, b: Seq<char>) -> bool
    decreases a.len(),
{
    if b.len() == 0 {
        false
    } else if a.len() == 0 {
        true
    } else if a[0] != b[0] {
        a[0] < b[0]
    } else {
        name_lt(a.subrange(1, a.len() as int), b.subrange(1, b.len() as int))
    }
}

/// `name_lt` is a strict total order.
pub proof fn lemma_name_order(a: Seq<char>, b: Seq<char>)
    ensures
        !name_lt(a, a),
        a != b ==> (name_lt(a, b) || name_lt(b, a)),
        !(name_lt(a, b) && name_lt(b, a)),
    decreases a.len(),
{
    if a.len() > 0 {
        lemma_name_order(a.subrange(1, a.len() as int), a.subrange(1, a.len() as int));
    }
    if a.len() > 0 && b.len() > 0 {
        lemma_name_order(a.subrange(1, a.len() as int), b.subrange(1, b.len() as int));
        if a[0] == b[0] && a != b {
            assert(a.subrange(1, a.len() as int) != b.subrange(1, b.len() as int)) by {
                if a.subrange(1, a.len() as int) == b.subrange(1, b.len() as int) {
                    assert(a =~= seq![a[0]] + a.subrange(1, a.len() as int));
                    assert(b =~= seq![b[0]] + b.subrange(1, b.len() as int));
                }
            }
        }
    }
    if a.len() == 0 && b.len() == 0 {
        assert(a =~= b);
    }
}

pub proof fn lemma_name_lt_transitive(a: Seq<char>, b: Seq<char>, c: Seq<char>)
    requires
        name_lt(a, b),
        name_lt(b, c),
    ensures
        name_lt(a, c),
    decreases a.len(),
{
    if a.len() > 0 && b.len() > 0 && c.len() > 0 && a[0] == b[0] && b[0] == c[0] {
        lemma_name_lt_transitive(
            a.subrange(1, a.len() as int),
            b.subrange(1, b.len() as int),
            c.subrange(1, c.len() as int),
        );
    }
}

/// Whether `a` comes before `b` in name order.
pub fn name_less(a: &String, b: &String) -> (r: bool)
    ensures
        r == name_lt(a@, b@),
{
    let x = chars_of(a.as_str());
    let y = chars_of(b.as_str());
    let mut i: usize = 0;
    proof {
        assert(x@.subrange(0, x@.len() as int) =~= x@);
        assert(y@.subrange(0, y@.len() as int) =~= y@);
    }
    while i < x.len() && i < y.len() && x[i] == y[i]
        invariant
            i <= x@.len(),
            i <= y@.len(),
            name_lt(a@, b@) == name_lt(x@.subrange(i as int, x@.len() as int), y@.subrange(i as int, y@.len() as int)),
            x@ == a@,
            y@ == b@,
        decreases x@.len() - i,
    {
        let ghost xs = x@.subrange(i as int, x@.len() as int);
        let ghost ys = y@.subrange(i as int, y@.len() as int);
        assert(xs.subrange(1, xs.len() as int) =~= x@.subrange(i + 1, x@.len() as int));
        assert(ys.subrange(1, ys.len() as int) =~= y@.subrange(i + 1, y@.len() as int));
        i = i + 1;
    }
    if i >= y.len() {
        false
    } else if i >= x.len() {
        true
    } else {
        x[i] < y[i]
    }
}

} // verus!
