use vstd::prelude::*;
use vstd::string::StrSliceExecFns;

verus! {

broadcast use vstd::string::group_string_axioms;

/// Collects the characters of `s` into a vector.
pub fn chars_of(s: &str) -> (v: Vec<char>)
    ensures
        v@ == s@,
{
    let mut v: Vec<char> = Vec::new();
    for c in it: s.chars()
        invariant
            v@ == it.seq().take(it.index() as int),
            it.seq() == s@,
    {
        v.push(c);
    }
    v
}

} // verus!

verus! {

/// Splits `s[i..]` at each `sep`; `cur` is the piece gathered so far.
pub open spec fn split_on(s: Seq<char>, sep: char, i: int, cur: Seq<char>) -> Seq<Seq<char>>
    decreases s.len() - i,
{
    if i < 0 || i >= s.len() {
        seq![cur]
    } else if s[i] == sep {
        seq![cur] + split_on(s, sep, i + 1, seq![])
    } else {
        split_on(s, sep, i + 1, cur.push(s[i]))
    }
}

/// Splitting always gives at least one piece.
pub proof fn lemma_split_on_nonempty(s: Seq<char>, sep: char, i: int, cur: Seq<char>)
    ensures
        split_on(s, sep, i, cur).len() >= 1,
    decreases s.len() - i,
{
    if i < 0 || i >= s.len() {
    } else if s[i] == sep {
        lemma_split_on_nonempty(s, sep, i + 1, seq![]);
    } else {
        lemma_split_on_nonempty(s, sep, i + 1, cur.push(s[i]));
    }
}

/// The text of each string.
pub open spec fn texts(v: Seq<String>) -> Seq<Seq<char>> {
    v.map_values(|x: String| x@)
}

/// The pieces of `s` between occurrences of `sep`.
pub fn split_strings(s: &str, sep: char) -> (r: Vec<String>)
    ensures
        texts(r@) == split_on(s@, sep, 0, seq![]),
{
    let chars = chars_of(s);
    let n = chars.len();
    let mut v: Vec<String> = Vec::new();
    let ghost mut done: Seq<Seq<char>> = seq![];
    let mut start: usize = 0;
    let mut i: usize = 0;
    assert(s@.subrange(0, 0) =~= Seq::<char>::empty());
    assert(done + split_on(s@, sep, 0, seq![]) =~= split_on(s@, sep, 0, seq![]));
    while i < n
        invariant
            n == chars@.len() == s@.len(),
            chars@ == s@,
            start <= i <= n,
            split_on(s@, sep, 0, seq![]) == done + split_on(
                s@,
                sep,
                i as int,
                s@.subrange(start as int, i as int),
            ),
            texts(v@) == done,
        decreases n - i,
    {
        if chars[i] == sep {
            let ghost p = s@.subrange(start as int, i as int);
            let piece = s.substring_char(start, i).to_owned();
            v.push(piece);
            proof {
                assert(texts(v@) =~= done + seq![p]);
                done = done + seq![p];
                assert(s@.subrange(i + 1, i + 1) =~= Seq::<char>::empty());
            }
            start = i + 1;
        } else {
            assert(s@.subrange(start as int, i + 1) =~= s@.subrange(start as int, i as int).push(
                s@[i as int],
            ));
        }
        i = i + 1;
    }
    let ghost p = s@.subrange(start as int, n as int);
    let piece = s.substring_char(start, n).to_owned();
    v.push(piece);
    proof {
        assert(texts(v@) =~= done + seq![p]);
        done = done + seq![p];
    }
    v
}

} // verus!
