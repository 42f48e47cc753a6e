//! Strings as sequences of characters: decimal notation, joining with a
//! separator and splitting on underscores.
use vstd::prelude::*;
use vstd::std_specs::iter::IteratorSpec;

use crate::common::{decimal, digit_char};

verus! {

/// The parts, with `sep` between each two consecutive ones.
pub open spec fn joined(parts: Seq<Seq<char>>, sep: Seq<char>) -> Seq<char>
    decreases parts.len(),
{
    if parts.len() == 0 {
        Seq::empty()
    } else if parts.len() == 1 {
        parts[0]
    } else {
        joined(parts.drop_last(), sep) + sep + parts.last()
    }
}

/// The pieces of `s` between underscores, in order; there is always at
/// least one piece, and two adjacent underscores enclose an empty piece.
pub open spec fn split_underscore(s: Seq<char>) -> Seq<Seq<char>>
    decreases s.len(),
{
    if s.len() == 0 {
        seq![Seq::empty()]
    } else {
        let p = split_underscore(s.drop_last());
        if s.last() == '_' {
            p.push(Seq::empty())
        } else {
            p.update(p.len() - 1, p.last().push(s.last()))
        }
    }
}

/// The character sequences that vectors of characters hold.
pub open spec fn char_seqs(v: Seq<Vec<char>>) -> Seq<Seq<char>> {
    v.map_values(|c: Vec<char>| c@)
}

/// The character sequences that strings hold.
pub open spec fn string_views(v: Seq<String>) -> Seq<Seq<char>> {
    v.map_values(|p: String| p@)
}

/// Whether `s` holds no underscore.
pub open spec fn no_underscore(s: Seq<char>) -> bool {
    forall|i: int| 0 <= i < s.len() ==> #[trigger] s[i] != '_'
}

/// Relies on `String::push`: appends one character at the end.
#[verifier::external_body]
pub fn push_char(s: &mut String, c: char)
    ensures
        final(s)@ == old(s)@.push(c),
{
    s.push(c)
}

/// Relies on `Itertools::intersperse` (and std's collection of strings into
/// one): the separator goes between each two consecutive parts.
#[verifier::external_body]
pub fn join_parts(parts: Vec<String>, sep: &str) -> (r: String)
    ensures
        r@ == joined(string_views(parts@), sep@),
{
    itertools::Itertools::intersperse(parts.into_iter(), sep.to_string()).collect()
}

/// The characters of a string slice.
pub fn chars_of(s: &str) -> (r: Vec<char>)
    ensures
        r@ == s@,
{
    broadcast use vstd::string::group_string_axioms;

    let mut it = s.chars();
    let mut r: Vec<char> = Vec::new();
    loop
        invariant
            it.obeys_prophetic_iter_laws(),
            it.decrease() is Some,
            r@ + it.remaining() == s@,
        ensures
            r@ == s@,
        decreases it.decrease()->0,
    {
        let ghost before = it.remaining();
        match it.next() {
            Some(c) => {
                r.push(c);
                assert(r@ + it.remaining() =~= s@) by {
                    assert(before =~= seq![c] + it.remaining());
                }
            },
            None => {
                assert(r@ =~= s@);
                break ;
            },
        }
    }
    r
}

/// The decimal digit of a value below ten.
pub fn digit_to_char(d: u8) -> (r: char)
    requires
        d < 10,
    ensures
        r == digit_char(d as nat),
{
    match d {
        0 => '0',
        1 => '1',
        2 => '2',
        3 => '3',
        4 => '4',
        5 => '5',
        6 => '6',
        7 => '7',
        8 => '8',
        _ => '9',
    }
}

/// Appends the decimal notation of `n`.
pub fn push_decimal(s: &mut String, n: u8)
    ensures
        final(s)@ == old(s)@ + decimal(n as nat),
{
    if n >= 100 {
        push_char(s, digit_to_char(n / 100));
        push_char(s, digit_to_char((n / 10) % 10));
        push_char(s, digit_to_char(n % 10));
        assert(decimal(n as nat) =~= seq![
            digit_char((n / 100) as nat),
            digit_char(((n / 10) % 10) as nat),
            digit_char((n % 10) as nat),
        ]) by {
            assert(decimal((n / 10) as nat) == decimal((n / 100) as nat).push(
                digit_char(((n / 10) % 10) as nat),
            ));
        }
    } else if n >= 10 {
        push_char(s, digit_to_char(n / 10));
        push_char(s, digit_to_char(n % 10));
        assert(decimal((n / 10) as nat) == seq![digit_char((n / 10) as nat)]);
        assert(decimal(n as nat) =~= seq![
            digit_char((n / 10) as nat),
            digit_char((n % 10) as nat),
        ]);
    } else {
        push_char(s, digit_to_char(n));
    }
    assert(final(s)@ =~= old(s)@ + decimal(n as nat));
}

/// Appends a string slice.
pub fn push_str(s: &mut String, t: &str)
    ensures
        final(s)@ == old(s)@ + t@,
{
    s.append(t);
}

/// The decimal notation of `n`.
pub fn decimal_string(n: u8) -> (r: String)
    ensures
        r@ == decimal(n as nat),
{
    let mut s = String::new();
    push_decimal(&mut s, n);
    assert(s@ =~= decimal(n as nat));
    s
}

/// Splits a sequence of characters on underscores.
pub fn split_on_underscores(s: &Vec<char>) -> (r: Vec<Vec<char>>)
    ensures
        char_seqs(r@) == split_underscore(s@),
{
    let mut r: Vec<Vec<char>> = Vec::new();
    let mut cur: Vec<char> = Vec::new();
    let mut i: usize = 0;
    while i < s.len()
        invariant
            i <= s.len(),
            char_seqs(r@).push(cur@) == split_underscore(s@.take(i as int)),
        decreases s.len() - i,
    {
        let c = s[i];
        assert(s@.take(i + 1).drop_last() =~= s@.take(i as int));
        assert(s@.take(i + 1).last() == c);
        if c == '_' {
            let ghost before = char_seqs(r@).push(cur@);
            r.push(cur);
            cur = Vec::new();
            assert(char_seqs(r@) =~= before);
            assert(char_seqs(r@).push(cur@) =~= before.push(Seq::empty()));
        } else {
            let ghost before = char_seqs(r@).push(cur@);
            cur.push(c);
            assert(char_seqs(r@).push(cur@) =~= before.update(before.len() - 1, before.last().push(c)));
        }
        i = i + 1;
    }
    assert(s@.take(s.len() as int) =~= s@);
    let ghost before = char_seqs(r@).push(cur@);
    r.push(cur);
    assert(char_seqs(r@) =~= before);
    r
}

// ---------------------------------------------------------------------------
// Splitting what was joined

/// Appending a piece without underscores extends the last piece.
proof fn lemma_split_append_piece(x: Seq<char>, t: Seq<char>)
    requires
        no_underscore(t),
    ensures
        split_underscore(x + t) == split_underscore(x).update(
            split_underscore(x).len() - 1,
            split_underscore(x).last() + t,
        ),
        split_underscore(x).len() >= 1,
    decreases t.len(),
{
    lemma_split_nonempty(x);
    if t.len() == 0 {
        assert(x + t =~= x);
        assert(split_underscore(x).last() + t =~= split_underscore(x).last());
        assert(split_underscore(x).update(split_underscore(x).len() - 1, split_underscore(x).last())
            =~= split_underscore(x));
    } else {
        let t0 = t.drop_last();
        assert(no_underscore(t0)) by {
            assert forall|i: int| 0 <= i < t0.len() implies t0[i] != '_' by {
                assert(t0[i] == t[i]);
            }
        }
        lemma_split_append_piece(x, t0);
        assert((x + t).drop_last() =~= x + t0);
        assert((x + t).last() == t.last());
        assert(t.last() != '_') by {
            assert(t[t.len() - 1] != '_');
        }
        lemma_split_nonempty(x + t0);
        let p = split_underscore(x + t0);
        assert(p.last() == split_underscore(x).last() + t0);
        assert(p.last().push(t.last()) =~= split_underscore(x).last() + t);
        assert(p.update(p.len() - 1, p.last().push(t.last())) =~= split_underscore(x).update(
            split_underscore(x).len() - 1,
            split_underscore(x).last() + t,
        ));
    }
}

/// Splitting never gives an empty list of pieces.
proof fn lemma_split_nonempty(x: Seq<char>)
    ensures
        split_underscore(x).len() >= 1,
    decreases x.len(),
{
    if x.len() > 0 {
        lemma_split_nonempty(x.drop_last());
    }
}

/// Joining pieces without underscores, then splitting, gives the pieces back.
pub proof fn lemma_split_joined(parts: Seq<Seq<char>>)
    requires
        parts.len() >= 1,
        forall|i: int| 0 <= i < parts.len() ==> no_underscore(#[trigger] parts[i]),
    ensures
        split_underscore(joined(parts, seq!['_'])) == parts,
    decreases parts.len(),
{
    if parts.len() == 1 {
        lemma_split_append_piece(Seq::empty(), parts[0]);
        assert(Seq::<char>::empty() + parts[0] =~= parts[0]);
        assert(split_underscore(Seq::<char>::empty()) =~= seq![Seq::<char>::empty()]);
        assert(split_underscore(parts[0]) =~= parts);
    } else {
        let init = parts.drop_last();
        assert forall|i: int| 0 <= i < init.len() implies no_underscore(#[trigger] init[i]) by {
            assert(init[i] == parts[i]);
        }
        lemma_split_joined(init);
        let j = joined(init, seq!['_']);
        let with_sep = j + seq!['_'];
        assert(with_sep.drop_last() =~= j);
        assert(split_underscore(with_sep) == init.push(Seq::empty()));
        assert(no_underscore(parts.last())) by {
            assert(parts.last() == parts[parts.len() - 1]);
        }
        lemma_split_append_piece(with_sep, parts.last());
        assert(joined(parts, seq!['_']) == with_sep + parts.last());
        assert(Seq::<char>::empty() + parts.last() =~= parts.last());
        assert(init.push(Seq::empty()).update(init.len() as int, parts.last()) =~= parts);
    }
}

} // verus!
