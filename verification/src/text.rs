//! Character-level helpers on strings, each with an exact contract over the
//! `Seq<char>` view of its arguments.
use vstd::prelude::*;
use vstd::string::StringExecFns;

verus! {

/// Appends one character to a string, through `String::push`.
///
/// Trusted: std documents `push` as appending the given `char` to the end of
/// the string; the contract says exactly that of the character view.
#[verifier::external_body]
pub(crate) fn push_char(s: &mut String, c: char)
    ensures
        final(s)@ == old(s)@.push(c),
{
    s.push(c);
}

/// The characters of `s`, in order.
pub fn chars_of(s: &str) -> (out: Vec<char>)
    ensures
        out@ == s@,
{
    let mut out: Vec<char> = Vec::new();
    for c in it: s.chars()
        invariant
            out@ == it.seq().take(it.index()),
    {
        out.push(c);
    }
    out
}

/// Appends every character of `t` to `s`.
pub fn push_str(s: &mut String, t: &str)
    ensures
        final(s)@ == old(s)@ + t@,
{
    s.append(t);
}

/// A new string holding the characters of `t`.
pub fn string_from(t: &str) -> (s: String)
    ensures
        s@ == t@,
{
    String::from_str(t)
}

/// Concatenation of two strings.
pub fn concatenate(a: &str, b: &str) -> (s: String)
    ensures
        s@ == a@ + b@,
{
    let mut s = string_from(a);
    push_str(&mut s, b);
    s
}

/// Whether `s` holds the character `c`.
pub fn contains_char(s: &str, c: char) -> (r: bool)
    ensures
        r == s@.contains(c),
{
    let cs = chars_of(s);
    let mut i: usize = 0;
    while i < cs.len()
        invariant
            i <= cs.len(),
            cs@ == s@,
            forall|j: int| 0 <= j < i ==> s@[j] != c,
        decreases cs.len() - i,
    {
        if cs[i] == c {
            assert(s@[i as int] == c);
            return true;
        }
        i = i + 1;
    }
    false
}

/// Whether two strings hold the same characters.
pub fn str_eq(a: &str, b: &str) -> (r: bool)
    ensures
        r == (a@ == b@),
{
    let x = string_from(a);
    let y = string_from(b);
    x == y
}

/// `s` with every trailing occurrence of `c` removed.
pub open spec fn trim_end_spec(s: Seq<char>, c: char) -> Seq<char>
    decreases s.len(),
{
    if s.len() > 0 && s.last() == c {
        trim_end_spec(s.drop_last(), c)
    } else {
        s
    }
}

proof fn lemma_trim_end_prefix(s: Seq<char>, c: char, n: int)
    requires
        0 <= n <= s.len(),
        forall|j: int| n <= j < s.len() ==> s[j] == c,
    ensures
        trim_end_spec(s, c) == trim_end_spec(s.take(n), c),
    decreases s.len() - n,
{
    if n < s.len() {
        assert(s.drop_last() =~= s.take(s.len() - 1));
        lemma_trim_end_prefix(s.drop_last(), c, n);
        assert(s.drop_last().take(n) =~= s.take(n));
    } else {
        assert(s.take(n) =~= s);
    }
}

/// `s` with every trailing `c` removed, as `str::trim_end_matches(c)` does.
pub fn trim_end_char(s: &str, c: char) -> (r: String)
    ensures
        r@ == trim_end_spec(s@, c),
{
    let cs = chars_of(s);
    let mut n: usize = cs.len();
    while n > 0 && cs[n - 1] == c
        invariant
            n <= cs.len(),
            cs@ == s@,
            forall|j: int| n <= j < s@.len() ==> s@[j] == c,
        decreases n,
    {
        n = n - 1;
    }
    proof {
        lemma_trim_end_prefix(s@, c, n as int);
        let t = s@.take(n as int);
        if t.len() > 0 {
            assert(t.last() == s@[n - 1]);
        }
    }
    let mut r = String::new();
    let mut i: usize = 0;
    while i < n
        invariant
            i <= n <= cs.len(),
            cs@ == s@,
            r@ == s@.take(i as int),
        decreases n - i,
    {
        push_char(&mut r, cs[i]);
        assert(s@.take(i as int + 1) =~= s@.take(i as int).push(s@[i as int]));
        i = i + 1;
    }
    r
}

/// The text of `base` joined with the path component `name`, as
/// `Path::join` does on Unix: an absolute `name` replaces `base`; otherwise a
/// `/` separates the two unless `base` is empty or already ends with one.
pub open spec fn path_join_spec(base: Seq<char>, name: Seq<char>) -> Seq<char> {
    if name.len() > 0 && name[0] == '/' {
        name
    } else if base.len() == 0 || base.last() == '/' {
        base + name
    } else {
        base.push('/') + name
    }
}

/// Joins a path component onto a base path, as text.
pub fn path_join(base: &str, name: &str) -> (r: String)
    ensures
        r@ == path_join_spec(base@, name@),
{
    let b = chars_of(base);
    let n = chars_of(name);
    if n.len() > 0 && n[0] == '/' {
        string_from(name)
    } else if b.len() == 0 || b[b.len() - 1] == '/' {
        concatenate(base, name)
    } else {
        let mut r = string_from(base);
        push_char(&mut r, '/');
        push_str(&mut r, name);
        r
    }
}

} // verus!
