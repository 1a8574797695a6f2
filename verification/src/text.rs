//! Character-level helpers shared by the modules that read and build text.

use vstd::prelude::*;

verus! {

/// Appends one character to a string.
///
/// Trusted: `String::push` is taken to extend the string's characters by
/// exactly `c` at the end.
#[verifier::external_body]
pub(crate) fn push_char(s: &mut String, c: char)
    ensures
        final(s)@ == old(s)@.push(c),
{
    s.push(c);
}

/// The characters of `s`, in order.
pub fn to_chars(s: &str) -> (v: Vec<char>)
    ensures
        v@ == s@,
{
    let mut v: Vec<char> = Vec::new();
    for c in it: s.chars()
        invariant
            it.seq() == s@,
            v@ == s@.take(it.index() as int),
    {
        assert(s@.take(it.index() + 1) == s@.take(it.index() as int).push(c));
        v.push(c);
    }
    assert(s@.take(s@.len() as int) == s@);
    v
}

/// The string made of the characters of `v`, in order.
pub fn from_chars(v: &Vec<char>) -> (s: String)
    ensures
        s@ == v@,
{
    let mut s = String::new();
    let mut i: usize = 0;
    while i < v.len()
        invariant
            i <= v.len(),
            s@ == v@.take(i as int),
        decreases v.len() - i,
    {
        push_char(&mut s, v[i]);
        i += 1;
        assert(v@.take(i as int) == v@.take(i - 1).push(v@[i - 1]));
    }
    assert(v@.take(v.len() as int) == v@);
    s
}

/// `needle` stands in `hay` starting at position `i`.
pub open spec fn occurs_at(hay: Seq<char>, needle: Seq<char>, i: int) -> bool {
    &&& 0 <= i
    &&& i + needle.len() <= hay.len()
    &&& hay.subrange(i, i + needle.len()) == needle
}

/// `needle` stands somewhere in `hay`.
pub open spec fn contains(hay: Seq<char>, needle: Seq<char>) -> bool {
    exists|i: int| occurs_at(hay, needle, i)
}

/// `i` is the leftmost position at which `needle` stands in `hay`.
pub open spec fn first_at(hay: Seq<char>, needle: Seq<char>, i: int) -> bool {
    &&& occurs_at(hay, needle, i)
    &&& forall|j: int| 0 <= j < i ==> !occurs_at(hay, needle, j)
}

/// `s` ends with `suffix`.
pub open spec fn ends_with(s: Seq<char>, suffix: Seq<char>) -> bool {
    occurs_at(s, suffix, s.len() - suffix.len())
}

/// `s` begins with `prefix`.
pub open spec fn starts_with(s: Seq<char>, prefix: Seq<char>) -> bool {
    occurs_at(s, prefix, 0)
}

/// Tells whether `needle` stands in `hay` at position `i`.
pub fn matches_at(hay: &Vec<char>, needle: &Vec<char>, i: usize) -> (b: bool)
    ensures
        b == occurs_at(hay@, needle@, i as int),
{
    if needle.len() > hay.len() || i > hay.len() - needle.len() {
        return false;
    }
    let mut k: usize = 0;
    while k < needle.len()
        invariant
            k <= needle.len(),
            i + needle.len() <= hay.len(),
            forall|m: int| 0 <= m < k ==> hay@[i + m] == needle@[m],
        decreases needle.len() - k,
    {
        if hay[i + k] != needle[k] {
            assert(hay@.subrange(i as int, i + needle.len())[k as int] == hay@[i + k]);
            return false;
        }
        k += 1;
    }
    assert(hay@.subrange(i as int, i + needle.len()) =~= needle@);
    true
}

/// The leftmost position at which `needle` stands in `hay`, if there is one.
pub fn find(hay: &Vec<char>, needle: &Vec<char>) -> (r: Option<usize>)
    ensures
        match r {
            Some(i) => first_at(hay@, needle@, i as int),
            None => !contains(hay@, needle@),
        },
{
    let mut i: usize = 0;
    while i < hay.len()
        invariant
            i <= hay.len(),
            forall|j: int| 0 <= j < i ==> !occurs_at(hay@, needle@, j),
        decreases hay.len() - i,
    {
        if matches_at(hay, needle, i) {
            return Some(i);
        }
        i += 1;
    }
    if matches_at(hay, needle, i) {
        return Some(i);
    }
    assert(forall|j: int| !occurs_at(hay@, needle@, j));
    None
}

/// Tells whether `s` ends with `suffix`.
pub fn has_suffix(s: &Vec<char>, suffix: &Vec<char>) -> (b: bool)
    ensures
        b == ends_with(s@, suffix@),
{
    if suffix.len() > s.len() {
        return false;
    }
    matches_at(s, suffix, s.len() - suffix.len())
}

/// `s` with every occurrence of `from` replaced by `to`, the occurrences
/// being taken from the left and not overlapping. An empty `from` occurs
/// nowhere.
pub open spec fn replaced(s: Seq<char>, from: Seq<char>, to: Seq<char>) -> Seq<char>
    decreases s.len(),
{
    if from.len() == 0 || s.len() < from.len() {
        s
    } else if occurs_at(s, from, 0) {
        to + replaced(s.skip(from.len() as int), from, to)
    } else {
        seq![s[0]] + replaced(s.skip(1), from, to)
    }
}

/// Replaces every occurrence of `from` in `s` by `to`.
pub fn replace(s: &Vec<char>, from: &Vec<char>, to: &Vec<char>) -> (out: Vec<char>)
    ensures
        out@ == replaced(s@, from@, to@),
{
    let mut out: Vec<char> = Vec::new();
    let mut i: usize = 0;
    assert(s@.skip(0) =~= s@);
    while i < s.len()
        invariant
            i <= s.len(),
            out@ + replaced(s@.skip(i as int), from@, to@) == replaced(s@, from@, to@),
        decreases s.len() - i,
    {
        let ghost rest = s@.skip(i as int);
        let ghost before = out@;
        if from.len() > 0 && matches_at(s, from, i) {
            proof {
                assert(rest.subrange(0, from@.len() as int) =~= s@.subrange(
                    i as int,
                    i + from@.len(),
                ));
                assert(occurs_at(rest, from@, 0));
                assert(rest.skip(from@.len() as int) =~= s@.skip(i + from@.len()));
            }
            let mut k: usize = 0;
            while k < to.len()
                invariant
                    k <= to.len(),
                    out@ == before + to@.take(k as int),
                decreases to.len() - k,
            {
                out.push(to[k]);
                assert(to@.take(k + 1) =~= to@.take(k as int).push(to@[k as int]));
                k += 1;
                assert(out@ =~= before + to@.take(k as int));
            }
            assert(to@.take(to.len() as int) =~= to@);
            i += from.len();
            assert(out@ + replaced(s@.skip(i as int), from@, to@) =~= before + (to@ + replaced(
                rest.skip(from@.len() as int),
                from@,
                to@,
            )));
        } else {
            proof {
                if from@.len() > 0 && rest.len() >= from@.len() {
                    assert(rest.subrange(0, from@.len() as int) =~= s@.subrange(
                        i as int,
                        i + from@.len(),
                    ));
                    assert(!occurs_at(rest, from@, 0));
                }
                assert(rest.skip(1) =~= s@.skip(i + 1));
            }
            out.push(s[i]);
            i += 1;
            proof {
                if from@.len() == 0 || rest.len() < from@.len() {
                    lemma_replaced_short(rest, from@, to@);
                    lemma_replaced_short(rest.skip(1), from@, to@);
                    assert(seq![rest[0]] + rest.skip(1) =~= rest);
                }
                assert(out@ + replaced(s@.skip(i as int), from@, to@) =~= before + (seq![rest[0]]
                    + replaced(rest.skip(1), from@, to@)));
            }
        }
    }
    assert(s@.skip(s.len() as int) =~= Seq::<char>::empty());
    assert(out@ + Seq::<char>::empty() =~= out@);
    out
}

/// A text that is shorter than `from`, or any text where `from` is empty,
/// is left as it is.
pub proof fn lemma_replaced_short(s: Seq<char>, from: Seq<char>, to: Seq<char>)
    requires
        from.len() == 0 || s.len() < from.len(),
    ensures
        replaced(s, from, to) == s,
{
}

} // verus!
