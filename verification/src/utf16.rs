//! UTF-16, the encoding of the paths that the log records.

use crate::text::char_from_u32;
use vstd::prelude::*;

verus! {

/// A unit that opens a surrogate pair.
pub open spec fn is_high_surrogate(u: u16) -> bool {
    0xD800 <= u <= 0xDBFF
}

/// A unit that closes a surrogate pair.
pub open spec fn is_low_surrogate(u: u16) -> bool {
    0xDC00 <= u <= 0xDFFF
}

/// The one or two units that stand for `c`.
pub open spec fn utf16_units(c: char) -> Seq<u16> {
    let v = c as u32;
    if v < 0x1_0000 {
        seq![v as u16]
    } else {
        seq![
            (0xD800 + (v - 0x1_0000) / 0x400) as u16,
            (0xDC00 + (v - 0x1_0000) % 0x400) as u16,
        ]
    }
}

/// The units that stand for `s`.
pub open spec fn encode_utf16(s: Seq<char>) -> Seq<u16>
    decreases s.len(),
{
    if s.len() == 0 {
        Seq::empty()
    } else {
        encode_utf16(s.drop_last()) + utf16_units(s.last())
    }
}

/// The character that a unit outside the surrogate range stands for.
pub open spec fn unit_char(u: u16) -> char {
    (u as u32) as char
}

/// The character that a surrogate pair stands for.
pub open spec fn pair_char(high: u16, low: u16) -> char {
    ((0x1_0000 + (high - 0xD800) * 0x400 + (low - 0xDC00)) as u32) as char
}

/// `rest` with `done` in front of it, where there is a `rest`.
pub open spec fn after(done: Seq<char>, rest: Option<Seq<char>>) -> Option<Seq<char>> {
    match rest {
        Some(rest) => Some(done + rest),
        None => None,
    }
}

/// The characters that `units` stand for, or `None` where a surrogate has no
/// partner.
pub open spec fn decode_utf16(units: Seq<u16>) -> Option<Seq<char>>
    decreases units.len(),
{
    if units.len() == 0 {
        Some(Seq::empty())
    } else if !is_high_surrogate(units[0]) && !is_low_surrogate(units[0]) {
        match decode_utf16(units.skip(1)) {
            Some(rest) => Some(seq![unit_char(units[0])] + rest),
            None => None,
        }
    } else if is_high_surrogate(units[0]) && units.len() >= 2 && is_low_surrogate(units[1]) {
        match decode_utf16(units.skip(2)) {
            Some(rest) => Some(seq![pair_char(units[0], units[1])] + rest),
            None => None,
        }
    } else {
        None
    }
}

/// Encoding goes character by character from the front as well.
pub proof fn lemma_encode_front(c: char, s: Seq<char>)
    ensures
        encode_utf16(seq![c] + s) == utf16_units(c) + encode_utf16(s),
    decreases s.len(),
{
    let all = seq![c] + s;
    if s.len() == 0 {
        assert(all.drop_last() =~= Seq::<char>::empty());
        assert(encode_utf16(all.drop_last()) =~= Seq::<u16>::empty());
        assert(encode_utf16(all) =~= utf16_units(c) + encode_utf16(s));
    } else {
        assert(all.drop_last() =~= seq![c] + s.drop_last());
        lemma_encode_front(c, s.drop_last());
        assert(encode_utf16(all) =~= utf16_units(c) + encode_utf16(s));
    }
}

/// Encoding distributes over concatenation.
pub proof fn lemma_encode_concat(a: Seq<char>, b: Seq<char>)
    ensures
        encode_utf16(a + b) == encode_utf16(a) + encode_utf16(b),
    decreases b.len(),
{
    if b.len() == 0 {
        assert(a + b =~= a);
        assert(encode_utf16(a) + encode_utf16(b) =~= encode_utf16(a));
    } else {
        assert((a + b).drop_last() =~= a + b.drop_last());
        lemma_encode_concat(a, b.drop_last());
        assert(encode_utf16(a + b) =~= encode_utf16(a) + encode_utf16(b));
    }
}

/// A string has at least as many units as characters, and at most twice as
/// many.
pub proof fn lemma_encode_len(s: Seq<char>)
    ensures
        s.len() <= encode_utf16(s).len() <= 2 * s.len(),
    decreases s.len(),
{
    if s.len() > 0 {
        lemma_encode_len(s.drop_last());
    }
}

/// What was encoded decodes to itself.
pub proof fn lemma_decode_encode(s: Seq<char>)
    ensures
        decode_utf16(encode_utf16(s)) == Some(s),
    decreases s.len(),
{
    if s.len() == 0 {
    } else {
        let c = s[0];
        let rest = s.skip(1);
        assert(s =~= seq![c] + rest);
        lemma_encode_front(c, rest);
        lemma_decode_encode(rest);
        let units = encode_utf16(s);
        let head = utf16_units(c);
        let v = c as u32;
        vstd::utf8::char_is_scalar(c);
        vstd::utf8::char_u32_cast(c, v);
        if v < 0x1_0000 {
            assert(units.skip(1) =~= encode_utf16(rest));
            assert(units[0] == head[0]);
            assert(units[0] as u32 == v);
        } else {
            assert(units.skip(2) =~= encode_utf16(rest));
            assert(units[0] == head[0]);
            assert(units[1] == head[1]);
            let w = (v - 0x1_0000) as int;
            assert(0 <= w < 0x10_0000);
            assert(0x400 * (w / 0x400) + w % 0x400 == w);
            assert((0x1_0000 + (units[0] - 0xD800) * 0x400 + (units[1] - 0xDC00)) as u32 == v);
        }
    }
}

/// Units that decode are the encoding of what they decode to.
pub proof fn lemma_encode_decode(units: Seq<u16>)
    requires
        decode_utf16(units) is Some,
    ensures
        encode_utf16(decode_utf16(units)->Some_0) == units,
    decreases units.len(),
{
    if units.len() == 0 {
    } else if !is_high_surrogate(units[0]) && !is_low_surrogate(units[0]) {
        let rest = units.skip(1);
        let c = unit_char(units[0]);
        lemma_encode_decode(rest);
        lemma_encode_front(c, decode_utf16(rest)->Some_0);
        assert(c as u32 == units[0] as u32);
        assert(utf16_units(c) =~= seq![units[0]]);
        assert(seq![units[0]] + rest =~= units);
    } else {
        let rest = units.skip(2);
        let c = pair_char(units[0], units[1]);
        lemma_encode_decode(rest);
        lemma_encode_front(c, decode_utf16(rest)->Some_0);
        let v = (0x1_0000 + (units[0] - 0xD800) * 0x400 + (units[1] - 0xDC00)) as u32;
        assert(c as u32 == v);
        assert(utf16_units(c) =~= seq![units[0], units[1]]);
        assert(seq![units[0], units[1]] + rest =~= units);
    }
}

/// A part of a string has no more units than the string.
pub proof fn lemma_encode_split(s: Seq<char>, at: int)
    requires
        0 <= at <= s.len(),
    ensures
        encode_utf16(s).len() == encode_utf16(s.take(at)).len() + encode_utf16(s.skip(at)).len(),
{
    assert(s.take(at) + s.skip(at) =~= s);
    lemma_encode_concat(s.take(at), s.skip(at));
}

/// The UTF-16 units of `s`.
pub fn encode(s: &str) -> (units: Vec<u16>)
    ensures
        units@ == encode_utf16(s@),
{
    broadcast use vstd::string::group_string_axioms;

    let mut units: Vec<u16> = Vec::new();
    for c in it: s.chars()
        invariant
            it.seq() == s@,
            units@ == encode_utf16(it.seq().take(it.index() as int)),
    {
        let ghost before = it.seq().take(it.index() as int);
        let ghost after = it.seq().take(it.index() + 1);
        proof {
            assert(after.drop_last() =~= before);
            assert(after.last() == c);
        }
        let v: u32 = c as u32;
        if v < 0x1_0000 {
            units.push(v as u16);
        } else {
            let w: u32 = v - 0x1_0000;
            units.push((0xD800 + w / 0x400) as u16);
            units.push((0xDC00 + w % 0x400) as u16);
        }
        assert(units@ =~= encode_utf16(before) + utf16_units(c));
    }
    proof {
        assert(s@.take(s@.len() as int) =~= s@);
    }
    units
}

/// The characters that `units` stand for, or `None` where they are not valid
/// UTF-16.
pub fn decode(units: &[u16]) -> (r: Option<Vec<char>>)
    ensures
        match r {
            Some(chars) => decode_utf16(units@) == Some(chars@),
            None => decode_utf16(units@) is None,
        },
{
    let mut chars: Vec<char> = Vec::new();
    let mut i: usize = 0;
    proof {
        assert(units@.skip(0) =~= units@);
        lemma_after_nothing(decode_utf16(units@));
    }
    while i < units.len()
        invariant
            i <= units@.len(),
            decode_utf16(units@) == after(chars@, decode_utf16(units@.skip(i as int))),
        decreases units@.len() - i,
    {
        let ghost tail = units@.skip(i as int);
        let u: u16 = units[i];
        proof {
            assert(tail[0] == u);
        }
        if u < 0xD800 || u > 0xDFFF {
            let c = match char_from_u32(u as u32) {
                Some(c) => c,
                None => {
                    return None;
                },
            };
            proof {
                vstd::utf8::char_u32_cast(c, u as u32);
                assert(tail.skip(1) =~= units@.skip(i + 1));
                lemma_after_push(chars@, c, decode_utf16(tail.skip(1)));
            }
            chars.push(c);
            i = i + 1;
        } else if u <= 0xDBFF && i + 1 < units.len() && units[i + 1] >= 0xDC00 && units[i + 1]
            <= 0xDFFF {
            let low: u16 = units[i + 1];
            let v: u32 = 0x1_0000 + ((u - 0xD800) as u32) * 0x400 + ((low - 0xDC00) as u32);
            let c = match char_from_u32(v) {
                Some(c) => c,
                None => {
                    return None;
                },
            };
            proof {
                vstd::utf8::char_u32_cast(c, v);
                assert(tail[1] == low);
                assert(tail.skip(2) =~= units@.skip(i + 2));
                assert(c == pair_char(u, low));
                lemma_after_push(chars@, c, decode_utf16(tail.skip(2)));
            }
            chars.push(c);
            i = i + 2;
        } else {
            proof {
                if is_high_surrogate(u) && tail.len() >= 2 {
                    assert(tail[1] == units@[i + 1]);
                }
            }
            return None;
        }
    }
    proof {
        assert(units@.skip(i as int) =~= Seq::<u16>::empty());
        assert(chars@ + Seq::<char>::empty() =~= chars@);
    }
    Some(chars)
}

proof fn lemma_after_nothing(rest: Option<Seq<char>>)
    ensures
        after(Seq::empty(), rest) == rest,
{
    if let Some(r) = rest {
        assert(Seq::<char>::empty() + r =~= r);
    }
}

proof fn lemma_after_push(done: Seq<char>, c: char, rest: Option<Seq<char>>)
    ensures
        after(done, after(seq![c], rest)) == after(done.push(c), rest),
{
    if let Some(r) = rest {
        assert(done + (seq![c] + r) =~= done.push(c) + r);
    }
}

} // verus!
