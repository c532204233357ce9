//! Small text helpers: appending characters and writing numbers in decimal.

use vstd::prelude::*;

verus! {

/// Appends `c` to `s` with `String::push`, which std documents as appending the character to the
/// end of the string.
#[verifier::external_body]
pub fn push_char(s: &mut String, c: char)
    ensures
        final(s)@ == old(s)@.push(c),
{
    s.push(c);
}

/// The decimal digit character of a value below ten.
pub open spec fn digit_char(d: nat) -> char {
    if d == 0 { '0' } else if d == 1 { '1' } else if d == 2 { '2' } else if d == 3 { '3' }
    else if d == 4 { '4' } else if d == 5 { '5' } else if d == 6 { '6' } else if d == 7 { '7' }
    else if d == 8 { '8' } else { '9' }
}

/// Decimal representation of a natural number, without leading zeros ("0" for zero).
pub open spec fn decimal(v: nat) -> Seq<char>
    decreases v,
{
    if v < 10 {
        seq![digit_char(v)]
    } else {
        decimal(v / 10).push(digit_char(v % 10))
    }
}

fn digit_to_char(d: usize) -> (c: char)
    requires
        d < 10,
    ensures
        c == digit_char(d as nat),
{
    if d == 0 { '0' } else if d == 1 { '1' } else if d == 2 { '2' } else if d == 3 { '3' }
    else if d == 4 { '4' } else if d == 5 { '5' } else if d == 6 { '6' } else if d == 7 { '7' }
    else if d == 8 { '8' } else { '9' }
}

/// Appends the decimal representation of `v` to `s`.
pub fn push_decimal(s: &mut String, v: usize)
    ensures
        final(s)@ == old(s)@ + decimal(v as nat),
    decreases v,
{
    if v < 10 {
        push_char(s, digit_to_char(v));
        assert(decimal(v as nat) =~= seq![digit_char(v as nat)]);
    } else {
        push_decimal(s, v / 10);
        push_char(s, digit_to_char(v % 10));
    }
}

/// Appends `t` to `s`.
pub fn push_str(s: &mut String, t: &str)
    ensures
        final(s)@ == old(s)@ + t@,
{
    s.append(t);
}

/// A new string with the characters of `t`.
pub fn string_of(t: &str) -> (s: String)
    ensures
        s@ == t@,
{
    String::from_str(t)
}

/// A Unicode white-space character (the characters for which `char::is_whitespace` holds).
pub open spec fn is_ws(c: char) -> bool {
    let v = c as u32;
    ||| 9 <= v <= 13
    ||| v == 32
    ||| v == 0x85
    ||| v == 0xa0
    ||| v == 0x1680
    ||| 0x2000 <= v <= 0x200a
    ||| v == 0x2028
    ||| v == 0x2029
    ||| v == 0x202f
    ||| v == 0x205f
    ||| v == 0x3000
}

/// Whether `c` is a Unicode white-space character.
pub fn is_whitespace_char(c: char) -> (b: bool)
    ensures
        b == is_ws(c),
{
    let v = c as u32;
    (9 <= v && v <= 13) || v == 32 || v == 0x85 || v == 0xa0 || v == 0x1680 || (0x2000 <= v && v <= 0x200a) || v == 0x2028
        || v == 0x2029 || v == 0x202f || v == 0x205f || v == 0x3000
}

/// The words of a text: its maximal runs of non-white-space characters, in order.
pub open spec fn words(s: Seq<char>) -> Seq<Seq<char>>
    decreases s.len(),
{
    if s.len() == 0 {
        Seq::empty()
    } else {
        let w = words(s.drop_last());
        if is_ws(s.last()) {
            w
        } else if s.len() >= 2 && !is_ws(s[s.len() - 2]) {
            w.drop_last().push(w.last().push(s.last()))
        } else {
            w.push(seq![s.last()])
        }
    }
}

/// The words joined with single spaces.
pub open spec fn join_spaced(ws: Seq<Seq<char>>) -> Seq<char>
    decreases ws.len(),
{
    if ws.len() == 0 {
        Seq::empty()
    } else if ws.len() == 1 {
        ws[0]
    } else {
        join_spaced(ws.drop_last()) + seq![' '] + ws.last()
    }
}

/// The characters of a text.
pub fn chars_of(s: &str) -> (cs: Vec<char>)
    ensures
        cs@ == s@,
{
    let len = s.unicode_len();
    let mut cs: Vec<char> = Vec::with_capacity(len);
    let mut i: usize = 0;
    while i < len
        invariant
            len == s@.len(),
            i <= len,
            cs@ == s@.subrange(0, i as int),
        decreases len - i,
    {
        cs.push(s.get_char(i));
        i = i + 1;
        assert(cs@ =~= s@.subrange(0, i as int));
    }
    assert(s@.subrange(0, len as int) =~= s@);
    cs
}

/// Splits a text into its words (as `str::split_whitespace` does).
pub fn split_words(s: &str) -> (ws: Vec<String>)
    ensures
        ws@.map_values(|w: String| w@) == words(s@),
{
    let cs = chars_of(s);
    let mut ws: Vec<String> = Vec::new();
    let mut cur = String::new();
    let mut in_word = false;
    let mut i: usize = 0;
    while i < cs.len()
        invariant
            cs@ == s@,
            i <= cs@.len(),
            in_word == (i > 0 && !is_ws(cs@[i - 1])),
            !in_word ==> cur@.len() == 0,
            words(cs@.subrange(0, i as int)) == ws@.map_values(|w: String| w@) + (if in_word { seq![cur@] } else { Seq::empty() }),
        decreases cs@.len() - i,
    {
        let c = cs[i];
        let ghost pre = cs@.subrange(0, i as int);
        let ghost next = cs@.subrange(0, i + 1);
        assert(next.drop_last() =~= pre);
        assert(next.last() == c);
        let ghost before = ws@.map_values(|w: String| w@);
        if is_whitespace_char(c) {
            if in_word {
                let done = cur;
                cur = String::new();
                ws.push(done);
                assert(ws@.map_values(|w: String| w@) =~= before.push(done@));
                in_word = false;
            }
            assert(words(next) == words(pre));
        } else {
            let ghost old_cur = cur@;
            push_char(&mut cur, c);
            if in_word {
                assert(next.len() >= 2 && next[next.len() - 2] == cs@[i - 1]);
                let ghost w = words(pre);
                assert(w == before.push(old_cur));
                assert(w.drop_last() =~= before);
                assert(words(next) == before.push(old_cur.push(c)));
            } else {
                assert(cur@ =~= seq![c]);
                assert(words(next) == before.push(seq![c]));
            }
            in_word = true;
        }
        i = i + 1;
    }
    if in_word {
        let ghost before = ws@.map_values(|w: String| w@);
        ws.push(cur);
        assert(ws@.map_values(|w: String| w@) =~= before.push(cur@));
    } else {
        assert(ws@.map_values(|w: String| w@) + Seq::<Seq<char>>::empty() =~= ws@.map_values(|w: String| w@));
    }
    assert(cs@.subrange(0, cs@.len() as int) =~= cs@);
    ws
}

/// Joins the strings with single spaces (as `join(" ")` does).
pub fn join_words(ws: &Vec<String>) -> (s: String)
    ensures
        s@ == join_spaced(ws@.map_values(|w: String| w@)),
{
    let mut s = String::new();
    let mut i: usize = 0;
    while i < ws.len()
        invariant
            i <= ws@.len(),
            s@ == join_spaced(ws@.map_values(|w: String| w@).subrange(0, i as int)),
        decreases ws@.len() - i,
    {
        let ghost v = ws@.map_values(|w: String| w@);
        assert(v.subrange(0, i + 1).drop_last() =~= v.subrange(0, i as int));
        if i > 0 {
            push_char(&mut s, ' ');
        } else {
            assert(s@ =~= Seq::<char>::empty());
        }
        push_str(&mut s, ws[i].as_str());
        i = i + 1;
        proof {
            if i == 1 {
                assert(s@ =~= v.subrange(0, 1)[0]);
            } else {
                assert(s@ =~= join_spaced(v.subrange(0, i - 1)) + seq![' '] + v[i - 1]);
            }
        }
    }
    assert(ws@.map_values(|w: String| w@).subrange(0, ws@.len() as int) =~= ws@.map_values(|w: String| w@));
    s
}

/// A string holding the given characters.
pub fn string_from_chars(cs: &Vec<char>) -> (s: String)
    ensures
        s@ == cs@,
{
    let mut s = String::new();
    let mut i: usize = 0;
    while i < cs.len()
        invariant
            i <= cs@.len(),
            s@ == cs@.subrange(0, i as int),
        decreases cs@.len() - i,
    {
        push_char(&mut s, cs[i]);
        i = i + 1;
        assert(s@ =~= cs@.subrange(0, i as int));
    }
    assert(cs@.subrange(0, cs@.len() as int) =~= cs@);
    s
}

/// Decimal representation of an integer, with a leading '-' when it is negative.
pub open spec fn int_text(v: int) -> Seq<char> {
    if v < 0 {
        seq!['-'] + decimal((-v) as nat)
    } else {
        decimal(v as nat)
    }
}

/// Appends the decimal representation of `v` to `s` (with a leading '-' when negative).
pub fn push_int(s: &mut String, v: i32)
    ensures
        final(s)@ == old(s)@ + int_text(v as int),
{
    if v < 0 {
        push_char(s, '-');
        let a: u64 = (0i64 - (v as i64)) as u64;
        push_decimal(s, a as usize);
    } else {
        push_decimal(s, v as usize);
    }
}

} // verus!
