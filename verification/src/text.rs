//! Moving between strings and the characters they hold.
//!
//! The rest of the crate reads text through a `Vec<char>`, which can be
//! indexed, and writes it back into a `String` one character at a time.

use vstd::prelude::*;

verus! {

/// `String::push` appends the character to the end of the string and leaves
/// what stood there before as it was.
pub assume_specification[ String::push ](s: &mut String, ch: char)
    ensures
        final(s)@ == old(s)@.push(ch),
;

/// The characters of `s`, in order.
pub fn chars_of(s: &str) -> (v: Vec<char>)
    ensures
        v@ == s@,
{
    let mut v: Vec<char> = Vec::new();
    for c in it: s.chars()
        invariant
            v@ == it.seq().take(it.index() as int),
    {
        v.push(c);
    }
    v
}

/// The string that holds the characters `v[from..to]`.
pub fn string_of(v: &Vec<char>, from: usize, to: usize) -> (s: String)
    requires
        from <= to <= v.len(),
    ensures
        s@ == v@.subrange(from as int, to as int),
{
    let mut s = String::new();
    let mut i: usize = from;
    while i < to
        invariant
            from <= i <= to <= v.len(),
            s@ == v@.subrange(from as int, i as int),
        decreases to - i,
    {
        s.push(v[i]);
        i += 1;
        assert(v@.subrange(from as int, i as int) =~= v@.subrange(from as int, i - 1).push(
            v@[i - 1],
        ));
    }
    s
}

/// Looks for the first `c` in `v[from..to]`.
pub fn find_char(v: &Vec<char>, from: usize, to: usize, c: char) -> (r: Option<usize>)
    requires
        from <= to <= v.len(),
    ensures
        match r {
            Some(i) => from <= i < to && v@.subrange(from as int, to as int).index_of_first(c)
                == Some(i - from),
            None => v@.subrange(from as int, to as int).index_of_first(c) is None,
        },
{
    let ghost s = v@.subrange(from as int, to as int);
    let mut i: usize = from;
    while i < to
        invariant
            from <= i <= to <= v.len(),
            s == v@.subrange(from as int, to as int),
            forall|j: int| 0 <= j < i - from ==> #[trigger] s[j] != c,
        decreases to - i,
    {
        if v[i] == c {
            assert(s[i - from] == c);
            proof {
                s.index_of_first_ensures(c);
            }
            return Some(i);
        }
        i += 1;
    }
    proof {
        s.index_of_first_ensures(c);
    }
    None
}

/// An index that holds `c`, with no `c` in front of it, is where the first
/// `c` stands.
pub proof fn lemma_first_index(s: Seq<char>, c: char, at: int)
    requires
        0 <= at < s.len(),
        s[at] == c,
        forall|j: int| 0 <= j < at ==> #[trigger] s[j] != c,
    ensures
        s.index_of_first(c) == Some(at),
{
    s.index_of_first_ensures(c);
    assert(s.contains(c));
}

/// A sequence without any `c` has no first `c`.
pub proof fn lemma_no_index(s: Seq<char>, c: char)
    requires
        forall|j: int| 0 <= j < s.len() ==> #[trigger] s[j] != c,
    ensures
        s.index_of_first(c) is None,
{
    s.index_of_first_ensures(c);
}

} // verus!
