use vstd::prelude::*;

verus! {

/// The character replaced by normalisation.
pub open spec fn backslash() -> char {
    '\\'
}

/// One character of a normalised identifier.
pub open spec fn normalized_char(c: char) -> char {
    if c == '\\' {
        '/'
    } else {
        c
    }
}

/// An identifier with every backslash replaced by a forward slash.
pub open spec fn normalized(s: Seq<char>) -> Seq<char> {
    s.map_values(|c: char| normalized_char(c))
}

/// Relies on `String::push`: appends one character.
#[verifier::external_body]
pub(crate) fn push_char(s: &mut String, c: char)
    ensures
        final(s)@ == old(s)@.push(c),
{
    s.push(c)
}

/// The characters of a string, in order.
pub fn chars_of(s: &str) -> (r: Vec<char>)
    ensures
        r@ == s@,
{
    let n = s.unicode_len();
    let mut r: Vec<char> = Vec::new();
    let mut i: usize = 0;
    while i < n
        invariant
            n == s@.len(),
            i <= n,
            r@ == s@.subrange(0, i as int),
        decreases n - i,
    {
        r.push(s.get_char(i));
        i = i + 1;
    }
    assert(r@ =~= s@);
    r
}

/// Replaces every backslash with a forward slash; nothing else changes.
pub fn normalize(s: &str) -> (r: String)
    ensures
        r@ == normalized(s@),
{
    let n = s.unicode_len();
    let mut r = String::new();
    let mut i: usize = 0;
    while i < n
        invariant
            n == s@.len(),
            i <= n,
            r@ == normalized(s@.subrange(0, i as int)),
        decreases n - i,
    {
        let c = s.get_char(i);
        let d = if c == '\\' {
            '/'
        } else {
            c
        };
        push_char(&mut r, d);
        assert(normalized(s@.subrange(0, i + 1)) =~= normalized(s@.subrange(0, i as int)).push(d));
        i = i + 1;
    }
    assert(s@.subrange(0, n as int) =~= s@);
    r
}

/// Normalising twice gives what normalising once gives, and a normalised
/// identifier holds no backslash.
pub proof fn lemma_normalize_idempotent(s: Seq<char>)
    ensures
        normalized(normalized(s)) == normalized(s),
        !normalized(s).contains(backslash()),
{
    assert(normalized(normalized(s)) =~= normalized(s));
}

} // verus!
