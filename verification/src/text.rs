//! Slicing a `&str` at character positions.
//!
//! Contracts in this crate speak of a text as its sequence of characters,
//! while a `&str` can only be cut at byte offsets. The functions here cut at
//! the offsets that the characters' UTF-8 encodings give, in constant time,
//! and state the result over characters.

use vstd::prelude::*;
use vstd::string::*;
use vstd::utf8::*;

verus! {

/// Encoding distributes over concatenation.
pub proof fn lemma_encode_concat(a: Seq<char>, b: Seq<char>)
    ensures
        encode_utf8(a + b) == encode_utf8(a) + encode_utf8(b),
    decreases a.len(),
{
    if a.len() == 0 {
        assert(a + b == b);
        assert(encode_utf8(a) + encode_utf8(b) == encode_utf8(b));
    } else {
        lemma_encode_concat(a.drop_first(), b);
        assert((a + b).drop_first() == a.drop_first() + b);
        assert((a + b)[0] == a[0]);
        assert(encode_utf8(a + b) == encode_scalar(a[0] as u32) + (encode_utf8(a.drop_first())
            + encode_utf8(b)));
        assert(encode_utf8(a + b) == (encode_scalar(a[0] as u32) + encode_utf8(a.drop_first()))
            + encode_utf8(b));
    }
}

/// Two texts with the same encoding are the same text.
pub proof fn lemma_encode_injective(a: Seq<char>, b: Seq<char>)
    requires
        encode_utf8(a) == encode_utf8(b),
    ensures
        a == b,
{
    encode_utf8_decode_utf8(a);
    encode_utf8_decode_utf8(b);
}

/// The encoding of a text can be cut where the encoding of a prefix ends.
pub proof fn lemma_prefix_ends_on_boundary(a: Seq<char>, b: Seq<char>)
    ensures
        is_char_boundary(encode_utf8(a + b), encode_utf8(a).len() as int),
    decreases a.len(),
{
    let whole = encode_utf8(a + b);
    encode_utf8_valid_utf8(a + b);
    if a.len() == 0 {
    } else {
        let tail = a.drop_first() + b;
        assert((a + b).drop_first() == tail);
        assert((a + b)[0] == a[0]);
        encode_utf8_first_scalar(a + b);
        assert(pop_first_scalar(whole) == encode_utf8(tail));
        lemma_prefix_ends_on_boundary(a.drop_first(), b);
    }
}

/// The number of bytes that `c` takes in UTF-8.
pub fn encoded_width(c: char) -> (w: usize)
    ensures
        w == encode_scalar(c as u32).len(),
        1 <= w <= 4,
{
    proof {
        char_is_scalar(c);
    }
    let v: u32 = c as u32;
    if v < 0x80 {
        1
    } else if v < 0x800 {
        2
    } else if v < 0x10000 {
        3
    } else {
        4
    }
}

/// The first character of `s` and the text behind it; `None` for the empty
/// text.
pub fn split_first<'a>(s: &'a str) -> (r: Option<(char, &'a str)>)
    ensures
        match r {
            None => s@.len() == 0,
            Some((c, rest)) => s@.len() > 0 && c == s@[0] && rest@ == s@.skip(1),
        },
{
    if s.is_empty() {
        return None;
    }
    let c = s.get_char(0);
    let w: usize = encoded_width(c);
    proof {
        let head = s@.take(1);
        let tail = s@.skip(1);
        assert(s@ == head + tail);
        reveal_with_fuel(encode_utf8, 2);
        assert(encode_utf8(head) =~= encode_scalar(c as u32));
        lemma_encode_concat(head, tail);
        lemma_prefix_ends_on_boundary(head, tail);
    }
    let (_, rest) = s.split_at(w);
    proof {
        let head = s@.take(1);
        let tail = s@.skip(1);
        assert(rest.spec_bytes() == encode_utf8(tail));
        lemma_encode_injective(rest@, tail);
    }
    Some((c, rest))
}

/// Whether `rest` is what is left of `s` behind some prefix.
pub open spec fn is_suffix_of(rest: Seq<char>, s: Seq<char>) -> bool {
    rest.len() <= s.len() && rest == s.skip(s.len() - rest.len())
}

/// The part of `s` in front of its suffix `rest`.
pub fn prefix_before<'a>(s: &'a str, rest: &str) -> (head: &'a str)
    requires
        is_suffix_of(rest@, s@),
    ensures
        head@ == s@.take(s@.len() - rest@.len()),
{
    proof {
        let k: int = s@.len() - rest@.len();
        assert(s@ == s@.take(k) + s@.skip(k));
        lemma_encode_concat(s@.take(k), s@.skip(k));
        lemma_prefix_ends_on_boundary(s@.take(k), s@.skip(k));
    }
    let n: usize = s.as_bytes().len() - rest.as_bytes().len();
    let (head, _) = s.split_at(n);
    proof {
        let k: int = s@.len() - rest@.len();
        assert(head.spec_bytes() == encode_utf8(s@.take(k)));
        lemma_encode_injective(head@, s@.take(k));
    }
    head
}

/// The first `n` characters of `s` and the text behind them; `None` where
/// `s` has fewer.
pub fn take_chars<'a>(s: &'a str, n: usize) -> (r: Option<(&'a str, &'a str)>)
    ensures
        match r {
            None => s@.len() < n,
            Some((head, rest)) => s@.len() >= n && head@ == s@.take(n as int) && rest@ == s@.skip(
                n as int,
            ),
        },
{
    let mut rest = s;
    let mut taken: usize = 0;
    while taken < n
        invariant
            taken <= n,
            taken <= s@.len(),
            rest@ == s@.skip(taken as int),
        decreases n - taken,
    {
        match split_first(rest) {
            None => {
                return None;
            },
            Some((_, tail)) => {
                assert(tail@ == s@.skip(taken + 1));
                rest = tail;
                taken = taken + 1;
            },
        }
    }
    Some((prefix_before(s, rest), rest))
}

} // verus!
