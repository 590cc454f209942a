//! Small helpers shared across the pipeline: one-element lists, decimal
//! rendering of counters for diagnostics, and conversions between strings
//! and character vectors.

use vstd::prelude::*;
use vstd::string::StrSliceExecFns;

verus! {

/// Wrap a single value in a one-element list.
pub fn as_linked<T>(value: T) -> (r: Vec<T>)
    ensures
        r@ =~= seq![value],
{
    let mut list: Vec<T> = Vec::new();
    list.push(value);
    list
}

/// First value bound to `name` in an association list, if any.
pub open spec fn al_find<V>(entries: Seq<(String, V)>, name: Seq<char>) -> Option<V>
    decreases entries.len(),
{
    if entries.len() == 0 {
        None
    } else if entries.first().0@ == name {
        Some(entries.first().1)
    } else {
        al_find(entries.drop_first(), name)
    }
}

/// Whether `name` is bound in an association list.
pub open spec fn al_has<V>(entries: Seq<(String, V)>, name: Seq<char>) -> bool {
    al_find(entries, name) is Some
}

/// No name is bound twice.
pub open spec fn al_unique<V>(entries: Seq<(String, V)>) -> bool {
    forall|i: int, j: int|
        0 <= i < j < entries.len() ==> (#[trigger] entries[i]).0@ != (#[trigger] entries[j]).0@
}

/// A name that `al_find` misses is bound nowhere in the list.
pub proof fn lemma_al_find_none<V>(entries: Seq<(String, V)>, name: Seq<char>)
    requires
        al_find(entries, name) is None,
    ensures
        forall|i: int| 0 <= i < entries.len() ==> (#[trigger] entries[i]).0@ != name,
    decreases entries.len(),
{
    if entries.len() > 0 {
        lemma_al_find_none(entries.drop_first(), name);
        assert(forall|i: int|
            1 <= i < entries.len() ==> (#[trigger] entries[i]) == entries.drop_first()[i - 1]);
    }
}

/// Binding a fresh name at the end of an association list makes lookups of
/// that name find it, and leaves every other lookup unchanged.
pub proof fn lemma_al_find_push<V>(entries: Seq<(String, V)>, e: (String, V), name: Seq<char>)
    ensures
        e.0@ == name && !al_has(entries, name) ==> al_find(entries.push(e), name) == Some(e.1),
        e.0@ != name ==> al_find(entries.push(e), name) == al_find(entries, name),
    decreases entries.len(),
{
    if entries.len() == 0 {
        assert(entries.push(e).first() == e);
        assert(entries.push(e).drop_first() =~= Seq::<(String, V)>::empty());
        assert(al_find(Seq::<(String, V)>::empty(), name) is None);
        assert(al_find(entries, name) is None);
    } else {
        lemma_al_find_push(entries.drop_first(), e, name);
        assert(entries.push(e).drop_first() =~= entries.drop_first().push(e));
        assert(entries.push(e).first() == entries.first());
    }
}

/// One step of the left-to-right scan that `al_find` describes.
pub proof fn lemma_al_find_step<V>(entries: Seq<(String, V)>, name: Seq<char>, j: int)
    requires
        0 <= j < entries.len(),
    ensures
        entries[j].0@ == name ==> al_find(entries.skip(j), name) == Some(entries[j].1),
        entries[j].0@ != name ==> al_find(entries.skip(j), name) == al_find(
            entries.skip(j + 1),
            name,
        ),
{
    assert(entries.skip(j).first() == entries[j]);
    assert(entries.skip(j).drop_first() =~= entries.skip(j + 1));
}

/// Scan an association list for `name`, returning the index of its first
/// binding.
pub fn al_lookup_idx<V>(entries: &Vec<(String, V)>, name: &String) -> (r: Option<usize>)
    ensures
        match r {
            Some(i) => i < entries@.len() && entries@[i as int].0@ == name@ && al_find(
                entries@,
                name@,
            ) == Some(entries@[i as int].1),
            None => al_find(entries@, name@) is None,
        },
{
    let n = entries.len();
    let mut j: usize = 0;
    proof {
        assert(entries@.skip(0) =~= entries@);
    }
    while j < n
        invariant
            n == entries@.len(),
            j <= n,
            al_find(entries@, name@) == al_find(entries@.skip(j as int), name@),
        decreases n - j,
    {
        proof {
            lemma_al_find_step(entries@, name@, j as int);
        }
        if entries[j].0 == *name {
            return Some(j);
        }
        j += 1;
    }
    proof {
        assert(entries@.skip(n as int) =~= Seq::<(String, V)>::empty());
    }
    None
}

/// The character for one decimal digit.
pub open spec fn digit_char(d: nat) -> char
    recommends
        d < 10,
{
    if d == 0 {
        '0'
    } else if d == 1 {
        '1'
    } else if d == 2 {
        '2'
    } else if d == 3 {
        '3'
    } else if d == 4 {
        '4'
    } else if d == 5 {
        '5'
    } else if d == 6 {
        '6'
    } else if d == 7 {
        '7'
    } else if d == 8 {
        '8'
    } else {
        '9'
    }
}

/// Decimal digits of `n`, most significant first, without leading zeros
/// (zero itself is a single digit).
pub open spec fn dec_spec(n: nat) -> Seq<char>
    decreases n,
{
    if n < 10 {
        seq![digit_char(n)]
    } else {
        dec_spec(n / 10).push(digit_char(n % 10))
    }
}

fn digit_of(d: u64) -> (c: char)
    requires
        d < 10,
    ensures
        c == digit_char(d as nat),
{
    match d {
        0 => '0',
        1 => '1',
        2 => '2',
        3 => '3',
        4 => '4',
        5 => '5',
        6 => '6',
        7 => '7',
        8 => '8',
        _ => '9',
    }
}

/// The decimal rendering of a counter.
pub fn dec_chars(n: u64) -> (r: Vec<char>)
    ensures
        r@ == dec_spec(n as nat),
    decreases n,
{
    if n < 10 {
        let mut r: Vec<char> = Vec::new();
        r.push(digit_of(n));
        proof {
            assert(r@ =~= seq![digit_char(n as nat)]);
        }
        r
    } else {
        proof {
            assert(n / 10 < n) by (nonlinear_arith)
                requires n >= 10;
        }
        let mut r = dec_chars(n / 10);
        r.push(digit_of(n % 10));
        r
    }
}

/// Append a copy of `src` to `dst`.
pub fn append_chars(dst: &mut Vec<char>, src: &Vec<char>)
    ensures
        final(dst)@ == old(dst)@ + src@,
{
    let mut i: usize = 0;
    while i < src.len()
        invariant
            i <= src@.len(),
            dst@ == old(dst)@ + src@.take(i as int),
        decreases src@.len() - i,
    {
        let ghost pre = dst@;
        dst.push(src[i]);
        i += 1;
        proof {
            assert(dst@ =~= old(dst)@ + src@.take(i as int));
        }
    }
    proof {
        assert(src@.take(src@.len() as int) =~= src@);
    }
}

/// Relies on `String`'s `FromIterator` over `char`: collecting characters
/// yields the string made of exactly those characters, in order.
#[verifier::external_body]
pub fn chars_to_string(v: &Vec<char>) -> (r: String)
    ensures
        r@ == v@,
{
    v.iter().collect()
}

/// The characters of a string, as a vector.
pub fn string_to_chars(s: &str) -> (r: Vec<char>)
    ensures
        r@ == s@,
{
    let n = s.unicode_len();
    let mut r: Vec<char> = Vec::new();
    let mut i: usize = 0;
    while i < n
        invariant
            n == s@.len(),
            i <= n,
            r@ == s@.take(i as int),
        decreases n - i,
    {
        r.push(s.get_char(i));
        i += 1;
        proof {
            assert(r@ =~= s@.take(i as int));
        }
    }
    proof {
        assert(s@.take(n as int) =~= s@);
    }
    r
}

} // verus!
