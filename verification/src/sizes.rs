//! Sizes of texts in bytes, and cutting texts to a size.

use vstd::prelude::*;
use vstd::string::*;

use crate::text::{chars_of, text_of};

verus! {

/// How many bytes `c` takes in UTF-8.
pub open spec fn char_bytes(c: char) -> int {
    if (c as u32) < 0x80 {
        1
    } else if (c as u32) < 0x800 {
        2
    } else if (c as u32) < 0x10000 {
        3
    } else {
        4
    }
}

/// How many bytes `c` takes in UTF-8.
pub fn bytes_of_char(c: char) -> (r: usize)
    ensures
        r == char_bytes(c),
{
    if (c as u32) < 0x80 {
        1
    } else if (c as u32) < 0x800 {
        2
    } else if (c as u32) < 0x10000 {
        3
    } else {
        4
    }
}

/// How many bytes `s` takes in UTF-8.
pub open spec fn byte_len(s: Seq<char>) -> int
    decreases s.len(),
{
    if s.len() == 0 {
        0
    } else {
        char_bytes(s[0]) + byte_len(s.skip(1))
    }
}

/// Sizes add up.
pub proof fn lemma_byte_len_add(a: Seq<char>, b: Seq<char>)
    ensures
        byte_len(a + b) == byte_len(a) + byte_len(b),
        byte_len(a) >= a.len(),
    decreases a.len(),
{
    if a.len() == 0 {
        assert(a + b =~= b);
    } else {
        lemma_byte_len_add(a.skip(1), b);
        assert((a + b).skip(1) =~= a.skip(1) + b);
        assert((a + b)[0] == a[0]);
    }
}

/// How many characters of `s`, from its start, fit in `room` bytes.
pub open spec fn fitting(s: Seq<char>, room: int) -> int
    decreases s.len(),
{
    if s.len() == 0 || char_bytes(s[0]) > room {
        0
    } else {
        1 + fitting(s.skip(1), room - char_bytes(s[0]))
    }
}

/// The longest start of `s`, in whole characters, that fits in `room` bytes.
pub open spec fn clip(s: Seq<char>, room: int) -> Seq<char> {
    s.take(fitting(s, room))
}

/// A clipped text fits, and the next character would not.
pub proof fn lemma_clip(s: Seq<char>, room: int)
    requires
        room >= 0,
    ensures
        0 <= fitting(s, room) <= s.len(),
        byte_len(clip(s, room)) <= room,
        fitting(s, room) < s.len() ==> byte_len(clip(s, room)) + char_bytes(
            s[fitting(s, room)],
        ) > room,
        byte_len(s) <= room ==> clip(s, room) == s,
    decreases s.len(),
{
    if s.len() == 0 {
        assert(clip(s, room) =~= s);
    } else if char_bytes(s[0]) > room {
        assert(clip(s, room).len() == 0);
        lemma_byte_len_add(s.skip(1), Seq::empty());
    } else {
        lemma_clip(s.skip(1), room - char_bytes(s[0]));
        let t = clip(s, room);
        assert(t.skip(1) =~= clip(s.skip(1), room - char_bytes(s[0])));
        assert(t[0] == s[0]);
        if byte_len(s) <= room {
            assert(t =~= seq![s[0]] + t.skip(1));
            assert(s =~= seq![s[0]] + s.skip(1));
        }
    }
}

/// Whether `v` takes more than `room` bytes in UTF-8.
pub fn exceeds(v: &Vec<char>, room: usize) -> (r: bool)
    ensures
        r == (byte_len(v@) > room),
{
    let mut i: usize = 0;
    let mut left: usize = room;
    assert(v@.skip(0) =~= v@);
    while i < v.len()
        invariant
            0 <= i <= v@.len(),
            left <= room,
            byte_len(v@) == room - left + byte_len(v@.skip(i as int)),
        decreases v@.len() - i,
    {
        let b: usize = bytes_of_char(v[i]);
        proof {
            assert(v@.skip(i as int).skip(1) =~= v@.skip(i + 1));
            assert(v@.skip(i as int)[0] == v@[i as int]);
            lemma_byte_len_add(v@.skip(i + 1), Seq::empty());
        }
        if b > left {
            return true;
        }
        left -= b;
        i += 1;
    }
    false
}

/// How many characters of `v`, from its start, fit in `room` bytes.
pub fn fit_count(v: &Vec<char>, room: usize) -> (r: usize)
    ensures
        r == fitting(v@, room as int),
        r <= v@.len(),
{
    let mut i: usize = 0;
    let mut left: usize = room;
    assert(v@.skip(0) =~= v@);
    while i < v.len()
        invariant
            0 <= i <= v@.len(),
            left <= room,
            fitting(v@, room as int) == i + fitting(v@.skip(i as int), left as int),
        decreases v@.len() - i,
    {
        let b: usize = bytes_of_char(v[i]);
        proof {
            assert(v@.skip(i as int).skip(1) =~= v@.skip(i + 1));
            assert(v@.skip(i as int)[0] == v@[i as int]);
        }
        if b > left {
            return i;
        }
        left -= b;
        i += 1;
    }
    i
}

/// `s`, cut to `room` bytes and marked with `note` where it takes more.
pub open spec fn shorten(s: Seq<char>, room: int, note: Seq<char>) -> Seq<char> {
    if byte_len(s) > room {
        clip(s, room) + note
    } else {
        s
    }
}

/// `s`, cut to `room` bytes and marked with `note` where it takes more. A character that would
/// straddle the limit is left out whole.
pub fn shortened(s: &str, room: usize, note: &str) -> (r: String)
    ensures
        r@ == shorten(s@, room as int, note@),
{
    let v = chars_of(s);
    if exceeds(&v, room) {
        let n: usize = fit_count(&v, room);
        let mut out = text_of(&v, 0, n);
        assert(v@.subrange(0, n as int) =~= v@.take(n as int));
        out.append(note);
        out
    } else {
        s.to_owned()
    }
}

/// A shortened text takes at most `room` bytes and its note.
pub proof fn law_shortened_fits(s: Seq<char>, room: int, note: Seq<char>)
    requires
        room >= 0,
    ensures
        byte_len(shorten(s, room, note)) <= room + byte_len(note),
{
    lemma_clip(s, room);
    lemma_byte_len_add(clip(s, room), note);
    lemma_byte_len_add(note, Seq::empty());
}

/// The size of a text is the length of its encoding.
pub proof fn lemma_byte_len_encoded(s: Seq<char>)
    ensures
        vstd::utf8::encode_utf8(s).len() == byte_len(s),
    decreases s.len(),
{
    if s.len() > 0 {
        assert(s.drop_first() =~= s.skip(1));
        lemma_byte_len_encoded(s.skip(1));
        let first = vstd::utf8::encode_scalar(s[0] as u32);
        vstd::utf8::char_is_scalar(s[0]);
        assert(first.len() == char_bytes(s[0]));
        assert(vstd::utf8::encode_utf8(s) == first + vstd::utf8::encode_utf8(s.drop_first()));
    }
}

/// How many bytes a text takes in UTF-8.
pub fn byte_size(s: &str) -> (r: usize)
    ensures
        r == byte_len(s@),
{
    proof {
        lemma_byte_len_encoded(s@);
    }
    s.as_bytes().len()
}

} // verus!
