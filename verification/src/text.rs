use vstd::prelude::*;
use vstd::string::StringExecFns;

verus! {

/// The characters of `s`, in order.
pub fn chars_of(s: &str) -> (r: Vec<char>)
    ensures
        r@ == s@,
{
    let mut r: Vec<char> = Vec::new();
    for c in it: s.chars()
        invariant
            r@ == it.seq().take(it.index() as int),
    {
        r.push(c);
    }
    r
}

/// Appends one character with `String::push`.
///
/// Claimed: the string's characters afterwards are the old ones followed by `c`.
#[verifier::external_body]
fn push_char(s: &mut String, c: char)
    ensures
        final(s)@ == old(s)@.push(c),
{
    s.push(c);
}

/// A string holding exactly the characters of `cs`.
pub fn string_from_chars(cs: &[char]) -> (r: String)
    ensures
        r@ == cs@,
{
    let mut r = String::new();
    let mut i: usize = 0;
    while i < cs.len()
        invariant
            i <= cs.len(),
            r@ == cs@.take(i as int),
        decreases cs.len() - i,
    {
        push_char(&mut r, cs[i]);
        assert(cs@.take(i + 1) == cs@.take(i as int).push(cs@[i as int]));
        i = i + 1;
    }
    assert(cs@.take(cs.len() as int) == cs@);
    r
}

/// A new string holding `a` followed by `b`.
pub fn concat_str(a: &str, b: &str) -> (r: String)
    ensures r@ == a@ + b@,
{
    let mut s = String::from_str(a);
    s.append(b);
    s
}

} // verus!
