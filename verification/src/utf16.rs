//! UTF-16 text.

use crate::text::chars_of;
use vstd::prelude::*;

verus! {

/// The code units of one character.
pub open spec fn char_units(c: char) -> Seq<u16> {
    let v = c as u32;
    if v < 0x10000 {
        seq![v as u16]
    } else {
        seq![(0xd800 + (v - 0x10000) / 0x400) as u16, (0xdc00 + (v - 0x10000) % 0x400) as u16]
    }
}

/// The code units of a text.
pub open spec fn utf16_units(s: Seq<char>) -> Seq<u16>
    decreases s.len(),
{
    if s.len() == 0 {
        Seq::empty()
    } else {
        utf16_units(s.drop_last()) + char_units(s.last())
    }
}

/// The text that code units stand for, if they stand for any.
pub open spec fn utf16_text(units: Seq<u16>) -> Option<Seq<char>> {
    if exists|s: Seq<char>| #[trigger] utf16_units(s) == units {
        Some(choose|s: Seq<char>| #[trigger] utf16_units(s) == units)
    } else {
        None
    }
}

/// Appends the code units of a text.
pub fn push_utf16(out: &mut Vec<u16>, s: &str)
    ensures
        final(out)@ == old(out)@ + utf16_units(s@),
{
    let chars = chars_of(s);
    let mut i: usize = 0;
    assert(out@ =~= old(out)@ + utf16_units(s@.take(0)));
    while i < chars.len()
        invariant
            i <= chars@.len(),
            chars@ == s@,
            out@ == old(out)@ + utf16_units(s@.take(i as int)),
        decreases chars@.len() - i,
    {
        let c = chars[i];
        let v: u32 = c as u32;
        assert(s@.take(i + 1).drop_last() =~= s@.take(i as int));
        if v < 0x10000 {
            out.push(v as u16);
        } else {
            out.push((0xd800 + (v - 0x10000) / 0x400) as u16);
            out.push((0xdc00 + (v - 0x10000) % 0x400) as u16);
        }
        assert(out@ =~= old(out)@ + utf16_units(s@.take(i + 1)));
        i = i + 1;
    }
    assert(s@.take(i as int) =~= s@);
}

/// The code units of a text with a zero behind them.
pub fn wide_null(s: &str) -> (r: Vec<u16>)
    ensures
        r@ == utf16_units(s@).push(0),
{
    let mut r: Vec<u16> = Vec::new();
    push_utf16(&mut r, s);
    r.push(0);
    assert(r@ =~= utf16_units(s@).push(0));
    r
}

/// How many code units a text has.
pub fn utf16_len(s: &str) -> (r: usize)
    ensures
        r == utf16_units(s@).len(),
{
    let mut units: Vec<u16> = Vec::new();
    push_utf16(&mut units, s);
    assert(units@ =~= utf16_units(s@));
    units.len()
}

/// `String::from_utf16`: the text that the code units encode, and an error when
/// they encode none.
#[verifier::external_body]
fn decoded(units: &[u16]) -> (r: Option<String>)
    ensures
        match r {
            Some(s) => utf16_units(s@) == units@,
            None => forall|s: Seq<char>| #[trigger] utf16_units(s) != units@,
        },
{
    String::from_utf16(units).ok()
}

/// The text that code units stand for.
pub fn text_of_utf16(units: &[u16]) -> (r: Option<String>)
    ensures
        match utf16_text(units@) {
            Some(s) => r matches Some(t) && t@ == s,
            None => r is None,
        },
{
    let r = decoded(units);
    proof {
        if r is Some {
            lemma_utf16_text(r->0@);
        }
    }
    r
}

/// Different texts have different code units.
pub proof fn law_utf16_is_injective(a: Seq<char>, b: Seq<char>)
    requires
        utf16_units(a) == utf16_units(b),
    ensures
        a == b,
    decreases a.len(),
{
    if a.len() == 0 {
        if b.len() > 0 {
            assert(char_units(b.last()).len() > 0);
            assert(utf16_units(b).len() > 0);
        }
        assert(a =~= b);
    } else if b.len() == 0 {
        assert(char_units(a.last()).len() > 0);
        assert(utf16_units(a).len() > 0);
    } else {
        let u = utf16_units(a);
        let ca = char_units(a.last());
        let cb = char_units(b.last());
        let n = u.len() as int;
        let v = a.last() as u32;
        let w = b.last() as u32;
        vstd::utf8::char_is_scalar(a.last());
        vstd::utf8::char_is_scalar(b.last());
        assert(u[n - 1] == ca[ca.len() - 1]);
        assert(u[n - 1] == cb[cb.len() - 1]);
        if ca.len() == 2 {
            assert(0xdc00 <= ca[1] <= 0xdfff);
        }
        if cb.len() == 2 {
            assert(0xdc00 <= cb[1] <= 0xdfff);
        }
        assert(ca.len() == cb.len());
        if ca.len() == 2 {
            assert(u[n - 2] == ca[0] && u[n - 2] == cb[0]);
            assert((v - 0x10000) / 0x400 == (w - 0x10000) / 0x400);
            assert((v - 0x10000) % 0x400 == (w - 0x10000) % 0x400);
            assert(v == w);
        } else {
            assert(v == w);
        }
        vstd::utf8::char_u32_cast(a.last(), v);
        vstd::utf8::char_u32_cast(b.last(), w);
        assert(a.last() == b.last());
        let ia = utf16_units(a.drop_last());
        let ib = utf16_units(b.drop_last());
        assert(ia =~= u.take(n - ca.len()));
        assert(ib =~= u.take(n - cb.len()));
        law_utf16_is_injective(a.drop_last(), b.drop_last());
        assert(a =~= a.drop_last().push(a.last()));
        assert(b =~= b.drop_last().push(b.last()));
    }
}

/// The code units of a text are read back as that text.
pub proof fn lemma_utf16_text(s: Seq<char>)
    ensures
        utf16_text(utf16_units(s)) == Some(s),
{
    let units = utf16_units(s);
    let t = choose|t: Seq<char>| #[trigger] utf16_units(t) == units;
    assert(utf16_units(s) == units);
    law_utf16_is_injective(s, t);
}

/// Only the character zero has a zero among its code units.
pub proof fn lemma_zero_free(s: Seq<char>)
    requires
        !s.contains('\0'),
    ensures
        !utf16_units(s).contains(0),
    decreases s.len(),
{
    if s.len() > 0 {
        let init = s.drop_last();
        assert forall|i: int| 0 <= i < init.len() implies init[i] != '\0' by {
            assert(s.contains(s[i]));
        }
        lemma_zero_free(init);
        assert(s.contains(s.last()));
        let c = char_units(s.last());
        vstd::utf8::char_is_scalar(s.last());
        vstd::utf8::char_u32_cast(s.last(), s.last() as u32);
        assert(s.last() as u32 != 0);
        assert forall|i: int| 0 <= i < utf16_units(s).len() implies utf16_units(s)[i] != 0 by {
            let n = utf16_units(init).len();
            if i < n {
                assert(utf16_units(init).contains(utf16_units(init)[i]));
            } else {
                assert(utf16_units(s)[i] == c[i - n]);
            }
        }
    }
}

/// Texts behind one another have their code units behind one another.
pub proof fn lemma_units_concat(a: Seq<char>, b: Seq<char>)
    ensures
        utf16_units(a + b) == utf16_units(a) + utf16_units(b),
    decreases b.len(),
{
    if b.len() == 0 {
        assert(a + b =~= a);
        assert(utf16_units(a) + utf16_units(b) =~= utf16_units(a));
    } else {
        lemma_units_concat(a, b.drop_last());
        assert((a + b).drop_last() =~= a + b.drop_last());
        assert((a + b).last() == b.last());
        assert(utf16_units(a + b) =~= utf16_units(a) + utf16_units(b));
    }
}

/// A character below 65536 is one code unit, itself; any other is two, a high and a low
/// surrogate, from which it can be told.
pub proof fn law_characters_are_told_by_their_units(c: char)
    ensures
        ({
            let u = char_units(c);
            let v = c as int;
            &&& v < 0x10000 ==> u.len() == 1 && u[0] == v
            &&& v >= 0x10000 ==> {
                &&& u.len() == 2
                &&& 0xd800 <= u[0] && u[0] <= 0xdbff
                &&& 0xdc00 <= u[1] && u[1] <= 0xdfff
                &&& v == 0x10000 + (u[0] - 0xd800) * 0x400 + (u[1] - 0xdc00)
            }
        }),
{
}

/// The code units of a text are those of its characters, one behind the other.
pub proof fn law_texts_are_their_characters(s: Seq<char>, c: char)
    ensures
        utf16_units(Seq::empty()).len() == 0,
        utf16_units(s.push(c)) == utf16_units(s) + char_units(c),
{
    assert(s.push(c).drop_last() =~= s);
}

} // verus!
