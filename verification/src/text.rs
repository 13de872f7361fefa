//! Small building blocks for assembling text character by character.
use vstd::prelude::*;

verus! {

/// `String::push` appends the given character to the end of the string.
pub assume_specification[ String::push ](s: &mut String, c: char)
    ensures
        final(s)@ == old(s)@.push(c),
;

/// The characters of `s`, in order.
pub fn chars_of(s: &str) -> (r: Vec<char>)
    ensures
        r@ == s@,
{
    let mut out: Vec<char> = Vec::new();
    for c in it: s.chars()
        invariant
            it.seq() == s@,
            out@ == s@.take(it.index() as int),
    {
        out.push(c);
    }
    assert(s@.take(s@.len() as int) == s@);
    out
}

/// A run of `n` spaces.
pub open spec fn spaces(n: nat) -> Seq<char> {
    Seq::new(n, |i: int| ' ')
}

/// Appends `n` spaces to `out`.
pub fn push_spaces(out: &mut String, n: usize)
    ensures
        final(out)@ == old(out)@ + spaces(n as nat),
{
    let mut i: usize = 0;
    while i < n
        invariant
            i <= n,
            out@ == old(out)@ + spaces(i as nat),
        decreases n - i,
    {
        out.push(' ');
        assert(spaces(i as nat).push(' ') == spaces((i + 1) as nat));
        i += 1;
    }
}

/// Whether two strings hold the same characters.
pub fn same_text(a: &str, b: &str) -> (r: bool)
    ensures
        r == (a@ == b@),
{
    let x = chars_of(a);
    let y = chars_of(b);
    if x.len() != y.len() {
        return false;
    }
    let mut i: usize = 0;
    while i < x.len()
        invariant
            i <= x.len(),
            x.len() == y.len(),
            x@ == a@,
            y@ == b@,
            x@.take(i as int) == y@.take(i as int),
        decreases x.len() - i,
    {
        if x[i] != y[i] {
            return false;
        }
        assert(x@.take(i + 1) =~= x@.take(i as int).push(x@[i as int]));
        assert(y@.take(i + 1) =~= y@.take(i as int).push(y@[i as int]));
        i += 1;
    }
    assert(x@.take(x.len() as int) == x@);
    assert(y@.take(y.len() as int) == y@);
    true
}

} // verus!
