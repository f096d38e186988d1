//! Text primitives. A string is read as the sequence of its characters.

use vstd::prelude::*;

verus! {

/// `String::push` appends one character and leaves the rest as it is.
pub assume_specification[ String::push ](s: &mut String, c: char)
    ensures
        final(s)@ == old(s)@.push(c),
;

/// A text in quotes, with escapes for what cannot stand there.
pub uninterp spec fn debug_text(s: Seq<char>) -> Seq<char>;

/// The `Debug` form of `str`, written by `format`, is a function of the text alone.
#[verifier::external_body]
pub(crate) fn debug_of(s: &str) -> (r: String)
    ensures
        r@ == debug_text(s@),
{
    format!("{s:?}")
}

/// The characters of each string of a list.
pub open spec fn texts(list: Seq<String>) -> Seq<Seq<char>> {
    Seq::new(list.len(), |i: int| list[i]@)
}

/// The ASCII lower-case form of one character; others are kept.
pub open spec fn lower_char(c: char) -> char {
    if 'A' <= c && c <= 'Z' {
        (c as u8 + 32) as char
    } else {
        c
    }
}

/// The ASCII upper-case form of one character; others are kept.
pub open spec fn upper_char(c: char) -> char {
    if 'a' <= c && c <= 'z' {
        (c as u8 - 32) as char
    } else {
        c
    }
}

/// ASCII lower case, character by character.
pub open spec fn lower(s: Seq<char>) -> Seq<char> {
    Seq::new(s.len(), |i: int| lower_char(s[i]))
}

/// ASCII upper case, character by character.
pub open spec fn upper(s: Seq<char>) -> Seq<char> {
    Seq::new(s.len(), |i: int| upper_char(s[i]))
}

pub open spec fn is_ascii_letter(c: char) -> bool {
    ('A' <= c && c <= 'Z') || ('a' <= c && c <= 'z')
}

pub open spec fn is_ascii_digit(c: char) -> bool {
    '0' <= c && c <= '9'
}

/// The Unicode property White_Space.
pub open spec fn is_space(c: char) -> bool {
    ||| '\u{9}' <= c && c <= '\u{d}'
    ||| c == '\u{20}' || c == '\u{85}' || c == '\u{a0}' || c == '\u{1680}'
    ||| '\u{2000}' <= c && c <= '\u{200a}'
    ||| c == '\u{2028}' || c == '\u{2029}' || c == '\u{202f}' || c == '\u{205f}' || c == '\u{3000}'
}

/// The Unicode general category Cc.
pub open spec fn is_control_char(c: char) -> bool {
    c <= '\u{1f}' || ('\u{7f}' <= c && c <= '\u{9f}')
}

/// The pieces of `s` between occurrences of `sep`; always at least one.
pub open spec fn split(s: Seq<char>, sep: char) -> Seq<Seq<char>>
    decreases s.len(),
{
    if s.len() == 0 {
        seq![Seq::<char>::empty()]
    } else {
        let pieces = split(s.drop_last(), sep);
        if s.last() == sep {
            pieces.push(Seq::<char>::empty())
        } else {
            pieces.drop_last().push(pieces.last().push(s.last()))
        }
    }
}

pub open spec fn trim_start(s: Seq<char>) -> Seq<char>
    decreases s.len(),
{
    if s.len() > 0 && is_space(s[0]) {
        trim_start(s.drop_first())
    } else {
        s
    }
}

pub open spec fn trim_end(s: Seq<char>) -> Seq<char>
    decreases s.len(),
{
    if s.len() > 0 && is_space(s.last()) {
        trim_end(s.drop_last())
    } else {
        s
    }
}

/// `s` without the white space at either end.
pub open spec fn trim(s: Seq<char>) -> Seq<char> {
    trim_end(trim_start(s))
}

/// The pieces of `s` at `sep`, trimmed, without the empty ones.
pub open spec fn split_list(s: Seq<char>, sep: char) -> Seq<Seq<char>> {
    trimmed_nonempty(split(s, sep))
}

pub open spec fn trimmed_nonempty(pieces: Seq<Seq<char>>) -> Seq<Seq<char>>
    decreases pieces.len(),
{
    if pieces.len() == 0 {
        Seq::empty()
    } else {
        let rest = trimmed_nonempty(pieces.drop_last());
        let piece = trim(pieces.last());
        if piece.len() == 0 {
            rest
        } else {
            rest.push(piece)
        }
    }
}

/// The pieces joined with `sep` between neighbours.
pub open spec fn join(pieces: Seq<Seq<char>>, sep: Seq<char>) -> Seq<char>
    decreases pieces.len(),
{
    if pieces.len() == 0 {
        Seq::empty()
    } else if pieces.len() == 1 {
        pieces[0]
    } else {
        join(pieces.drop_last(), sep) + sep + pieces.last()
    }
}

/// One decimal digit.
pub open spec fn digit_char(d: nat) -> char {
    (('0' as u8) + d) as char
}

/// The decimal digits of `n`, without leading zeros.
pub open spec fn decimal(n: nat) -> Seq<char>
    decreases n,
{
    if n < 10 {
        seq![digit_char(n)]
    } else {
        decimal(n / 10).push(digit_char(n % 10))
    }
}

/// The decimal digits of `n`, after a minus sign when it is negative.
pub open spec fn decimal_int(n: int) -> Seq<char> {
    if n < 0 {
        seq!['-'] + decimal((-n) as nat)
    } else {
        decimal(n as nat)
    }
}

/// One lower-case hexadecimal digit.
pub open spec fn hex_char(d: int) -> char {
    if d < 10 {
        (('0' as u8) + d) as char
    } else {
        (('a' as u8) + (d - 10)) as char
    }
}

/// Two lower-case hexadecimal digits for each byte.
pub open spec fn hex(bytes: Seq<u8>) -> Seq<char> {
    Seq::new(
        2 * bytes.len(),
        |i: int|
            if i % 2 == 0 {
                hex_char(bytes[i / 2] as int / 16)
            } else {
                hex_char(bytes[i / 2] as int % 16)
            },
    )
}

/// Whether the byte sequence `a` stands before `b` in dictionary order.
pub open spec fn bytes_before(a: Seq<u8>, b: Seq<u8>) -> bool
    decreases a.len(),
{
    if b.len() == 0 {
        false
    } else if a.len() == 0 {
        true
    } else if a[0] != b[0] {
        a[0] < b[0]
    } else {
        bytes_before(a.drop_first(), b.drop_first())
    }
}

/// Whether the text `a` stands before `b` in the order of their UTF-8 bytes.
pub open spec fn text_before(a: Seq<char>, b: Seq<char>) -> bool {
    bytes_before(vstd::utf8::encode_utf8(a), vstd::utf8::encode_utf8(b))
}

pub fn chars_of(s: &str) -> (r: Vec<char>)
    ensures
        r@ == s@,
{
    let mut r: Vec<char> = Vec::new();
    for c in it: s.chars()
        invariant
            r@ == it.seq().take(it.index()),
            it.seq() == s@,
    {
        r.push(c);
        assert(it.seq().take(it.index() + 1) == it.seq().take(it.index()).push(c));
    }
    assert(s@.take(s@.len() as int) == s@);
    r
}

/// The string made of the characters from `from` up to `to`.
pub fn string_of(chars: &Vec<char>, from: usize, to: usize) -> (r: String)
    requires
        from <= to <= chars@.len(),
    ensures
        r@ == chars@.subrange(from as int, to as int),
{
    let mut r = String::new();
    let mut i: usize = from;
    while i < to
        invariant
            from <= i <= to <= chars@.len(),
            r@ == chars@.subrange(from as int, i as int),
        decreases to - i,
    {
        r.push(chars[i]);
        i = i + 1;
        assert(chars@.subrange(from as int, i as int) == chars@.subrange(
            from as int,
            i - 1,
        ).push(chars@[i - 1]));
    }
    r
}

pub fn same_text(a: &str, b: &str) -> (r: bool)
    ensures
        r == (a@ == b@),
{
    let left = a.to_owned();
    let right = b.to_owned();
    left == right
}

pub fn lower_of(c: char) -> (r: char)
    ensures
        r == lower_char(c),
{
    if 'A' <= c && c <= 'Z' {
        (c as u8 + 32) as char
    } else {
        c
    }
}

pub fn upper_of(c: char) -> (r: char)
    ensures
        r == upper_char(c),
{
    if 'a' <= c && c <= 'z' {
        (c as u8 - 32) as char
    } else {
        c
    }
}

pub fn to_lower(s: &str) -> (r: String)
    ensures
        r@ == lower(s@),
{
    let mut r = String::new();
    for c in it: s.chars()
        invariant
            r@ == lower(it.seq().take(it.index())),
            it.seq() == s@,
    {
        r.push(lower_of(c));
        assert(it.seq().take(it.index() + 1) == it.seq().take(it.index()).push(c));
        assert(lower(it.seq().take(it.index() + 1)) == lower(it.seq().take(it.index())).push(
            lower_char(c),
        ));
    }
    assert(s@.take(s@.len() as int) == s@);
    r
}

pub fn to_upper(s: &str) -> (r: String)
    ensures
        r@ == upper(s@),
{
    let mut r = String::new();
    for c in it: s.chars()
        invariant
            r@ == upper(it.seq().take(it.index())),
            it.seq() == s@,
    {
        r.push(upper_of(c));
        assert(it.seq().take(it.index() + 1) == it.seq().take(it.index()).push(c));
        assert(upper(it.seq().take(it.index() + 1)) == upper(it.seq().take(it.index())).push(
            upper_char(c),
        ));
    }
    assert(s@.take(s@.len() as int) == s@);
    r
}

/// Whether two texts are equal when ASCII case is ignored.
pub fn same_ignoring_case(a: &str, b: &str) -> (r: bool)
    ensures
        r == (lower(a@) == lower(b@)),
{
    let left = to_lower(a);
    let right = to_lower(b);
    left == right
}

/// Whether `c` occurs in `s`.
pub fn has_char(s: &str, c: char) -> (r: bool)
    ensures
        r == s@.contains(c),
{
    for x in it: s.chars()
        invariant
            it.seq() == s@,
            forall|i: int| 0 <= i < it.index() ==> s@[i] != c,
    {
        if x == c {
            assert(s@[it.index()] == c);
            return true;
        }
    }
    false
}

/// Whether `s` begins with `prefix`.
pub fn starts_with(s: &str, prefix: &str) -> (r: bool)
    ensures
        r == prefix@.is_prefix_of(s@),
{
    let whole = chars_of(s);
    let part = chars_of(prefix);
    if part.len() > whole.len() {
        return false;
    }
    let mut i: usize = 0;
    while i < part.len()
        invariant
            i <= part@.len() <= whole@.len(),
            part@ == prefix@,
            whole@ == s@,
            forall|j: int| 0 <= j < i ==> part@[j] == whole@[j],
        decreases part@.len() - i,
    {
        if part[i] != whole[i] {
            assert(whole@.take(part@.len() as int)[i as int] != part@[i as int]);
            return false;
        }
        i = i + 1;
    }
    assert(s@.take(part@.len() as int) == prefix@);
    true
}

/// Whether `s` ends with `suffix`.
pub fn ends_with(s: &str, suffix: &str) -> (r: bool)
    ensures
        r == suffix@.is_suffix_of(s@),
{
    let whole = chars_of(s);
    let part = chars_of(suffix);
    if part.len() > whole.len() {
        return false;
    }
    let start: usize = whole.len() - part.len();
    let mut i: usize = 0;
    while i < part.len()
        invariant
            i <= part@.len() <= whole@.len(),
            start + part.len() == whole.len(),
            part@ == suffix@,
            whole@ == s@,
            forall|j: int| 0 <= j < i ==> part@[j] == whole@[start + j],
        decreases part@.len() - i,
    {
        if part[i] != whole[start + i] {
            assert(whole@.skip(start as int)[i as int] != part@[i as int]);
            return false;
        }
        i = i + 1;
    }
    assert(s@.skip(start as int) == suffix@);
    true
}

pub proof fn lemma_split_nonempty(s: Seq<char>, sep: char)
    ensures
        split(s, sep).len() >= 1,
    decreases s.len(),
{
    if s.len() > 0 {
        lemma_split_nonempty(s.drop_last(), sep);
    }
}

/// The pieces of `s` between occurrences of `sep`.
pub fn split_at_char(s: &str, sep: char) -> (r: Vec<String>)
    ensures
        texts(r@) == split(s@, sep),
{
    let mut done: Vec<String> = Vec::new();
    let mut piece = String::new();
    assert(texts(done@).push(piece@) == split(s@.take(0), sep));
    for c in it: s.chars()
        invariant
            it.seq() == s@,
            texts(done@).push(piece@) == split(s@.take(it.index()), sep),
    {
        let ghost before = s@.take(it.index());
        let ghost now = s@.take(it.index() + 1);
        assert(now.drop_last() == before && now.last() == c);
        let ghost old_done = done@;
        let ghost old_piece = piece@;
        if c == sep {
            done.push(piece);
            piece = String::new();
            assert(texts(done@) == texts(old_done).push(old_piece));
        } else {
            piece.push(c);
            proof {
                lemma_split_nonempty(before, sep);
            }
            assert(split(before, sep).drop_last() == texts(done@));
        }
    }
    assert(s@.take(s@.len() as int) == s@);
    let ghost old_done = done@;
    let ghost old_piece = piece@;
    done.push(piece);
    assert(texts(done@) == texts(old_done).push(old_piece));
    done
}

pub fn is_space_char(c: char) -> (r: bool)
    ensures
        r == is_space(c),
{
    ('\u{9}' <= c && c <= '\u{d}') || c == '\u{20}' || c == '\u{85}' || c == '\u{a0}' || c == '\u{1680}'
        || ('\u{2000}' <= c && c <= '\u{200a}') || c == '\u{2028}' || c == '\u{2029}' || c
        == '\u{202f}' || c == '\u{205f}' || c == '\u{3000}'
}

/// `s` without the white space at either end.
pub fn trimmed(s: &str) -> (r: String)
    ensures
        r@ == trim(s@),
{
    let chars = chars_of(s);
    let mut from: usize = 0;
    assert(s@.skip(0) == s@);
    while from < chars.len() && is_space_char(chars[from])
        invariant
            from <= chars@.len(),
            chars@ == s@,
            trim_start(s@) == trim_start(s@.skip(from as int)),
        decreases chars@.len() - from,
    {
        assert(s@.skip(from as int).drop_first() == s@.skip(from + 1));
        from = from + 1;
    }
    assert(trim_start(s@) == s@.skip(from as int));
    let mut to: usize = chars.len();
    assert(s@.subrange(from as int, to as int) == s@.skip(from as int));
    while from < to && is_space_char(chars[to - 1])
        invariant
            from <= to <= chars@.len(),
            chars@ == s@,
            trim(s@) == trim_end(s@.subrange(from as int, to as int)),
        decreases to,
    {
        assert(s@.subrange(from as int, to as int).drop_last() == s@.subrange(
            from as int,
            to - 1,
        ));
        to = to - 1;
    }
    string_of(&chars, from, to)
}

/// The pieces of `s` at `sep`, trimmed, without the empty ones.
pub fn list_of(s: &str, sep: char) -> (r: Vec<String>)
    ensures
        texts(r@) == split_list(s@, sep),
{
    let pieces = split_at_char(s, sep);
    let mut r: Vec<String> = Vec::new();
    let mut i: usize = 0;
    assert(texts(r@) == trimmed_nonempty(texts(pieces@).take(0)));
    while i < pieces.len()
        invariant
            i <= pieces@.len(),
            texts(r@) == trimmed_nonempty(texts(pieces@).take(i as int)),
        decreases pieces@.len() - i,
    {
        let piece = trimmed(pieces[i].as_str());
        let ghost before = r@;
        let ghost now = texts(pieces@).take(i + 1);
        assert(now.drop_last() == texts(pieces@).take(i as int));
        assert(now.last() == pieces@[i as int]@);
        if !piece.as_str().is_empty() {
            let ghost p = piece@;
            r.push(piece);
            assert(texts(r@) == texts(before).push(p));
        }
        i = i + 1;
    }
    assert(texts(pieces@).take(i as int) == texts(pieces@));
    r
}

/// The decimal digits of `n`.
pub fn decimal_of(n: u64) -> (r: String)
    ensures
        r@ == decimal(n as nat),
    decreases n,
{
    if n < 10 {
        let mut r = String::new();
        r.push((48u8 + n as u8) as char);
        assert(r@ == seq![digit_char(n as nat)]);
        r
    } else {
        let mut r = decimal_of(n / 10);
        r.push((48u8 + (n % 10) as u8) as char);
        r
    }
}

/// The decimal digits of `n`, after a minus sign when it is negative.
pub fn signed_decimal_of(n: i32) -> (r: String)
    ensures
        r@ == decimal_int(n as int),
{
    if n < 0 {
        let mut r = String::new();
        r.push('-');
        let digits = decimal_of((-(n as i64)) as u64);
        r.append(digits.as_str());
        assert(r@ == seq!['-'] + decimal((-n) as nat));
        r
    } else {
        decimal_of(n as u64)
    }
}

pub fn hex_digit_of(d: u8) -> (r: char)
    requires
        d < 16,
    ensures
        r == hex_char(d as int),
{
    if d < 10 {
        (48u8 + d) as char
    } else {
        (97u8 + (d - 10)) as char
    }
}

/// Two lower-case hexadecimal digits for each byte.
pub fn hex_of(bytes: &[u8]) -> (r: String)
    ensures
        r@ == hex(bytes@),
{
    let mut r = String::new();
    let mut i: usize = 0;
    while i < bytes.len()
        invariant
            i <= bytes@.len(),
            r@ == hex(bytes@.take(i as int)),
        decreases bytes@.len() - i,
    {
        let b: u8 = bytes[i];
        r.push(hex_digit_of(b / 16));
        r.push(hex_digit_of(b % 16));
        i = i + 1;
        assert(r@ == hex(bytes@.take(i as int)));
    }
    assert(bytes@.take(i as int) == bytes@);
    r
}

/// Whether the byte sequence `a` stands before `b` in dictionary order.
pub fn bytes_precede(a: &[u8], b: &[u8]) -> (r: bool)
    ensures
        r == bytes_before(a@, b@),
{
    let mut i: usize = 0;
    assert(a@.skip(0) == a@ && b@.skip(0) == b@);
    while i < a.len() && i < b.len()
        invariant
            i <= a@.len(),
            i <= b@.len(),
            bytes_before(a@, b@) == bytes_before(a@.skip(i as int), b@.skip(i as int)),
        decreases a@.len() - i,
    {
        if a[i] != b[i] {
            return a[i] < b[i];
        }
        assert(a@.skip(i as int).drop_first() == a@.skip(i + 1));
        assert(b@.skip(i as int).drop_first() == b@.skip(i + 1));
        i = i + 1;
    }
    i < b.len()
}

/// Whether `a` stands before `b` in the order of their UTF-8 bytes.
pub fn text_precedes(a: &str, b: &str) -> (r: bool)
    ensures
        r == text_before(a@, b@),
{
    bytes_precede(a.as_bytes(), b.as_bytes())
}

/// The text order is never reflexive.
pub proof fn lemma_bytes_irreflexive(a: Seq<u8>)
    ensures
        !bytes_before(a, a),
    decreases a.len(),
{
    if a.len() > 0 {
        lemma_bytes_irreflexive(a.drop_first());
    }
}

pub proof fn lemma_bytes_transitive(a: Seq<u8>, b: Seq<u8>, c: Seq<u8>)
    requires
        bytes_before(a, b),
        bytes_before(b, c),
    ensures
        bytes_before(a, c),
    decreases a.len(),
{
    if a.len() > 0 && b.len() > 0 && c.len() > 0 && a[0] == b[0] && b[0] == c[0] {
        lemma_bytes_transitive(a.drop_first(), b.drop_first(), c.drop_first());
    }
}

pub proof fn lemma_bytes_total(a: Seq<u8>, b: Seq<u8>)
    ensures
        bytes_before(a, b) || bytes_before(b, a) || a == b,
    decreases a.len(),
{
    if a.len() > 0 && b.len() > 0 && a[0] == b[0] {
        lemma_bytes_total(a.drop_first(), b.drop_first());
        if a.drop_first() == b.drop_first() {
            assert(a == seq![a[0]] + a.drop_first());
            assert(b == seq![b[0]] + b.drop_first());
        }
    } else if a.len() == 0 && b.len() == 0 {
        assert(a == b);
    }
}

/// Any two different texts stand in one order or the other.
pub proof fn lemma_text_total(a: Seq<char>, b: Seq<char>)
    ensures
        text_before(a, b) || text_before(b, a) || a == b,
{
    lemma_bytes_total(vstd::utf8::encode_utf8(a), vstd::utf8::encode_utf8(b));
    vstd::utf8::encode_utf8_decode_utf8(a);
    vstd::utf8::encode_utf8_decode_utf8(b);
}

/// The pieces joined with `sep` between neighbours.
pub fn joined(pieces: &Vec<String>, sep: &str) -> (r: String)
    ensures
        r@ == join(texts(pieces@), sep@),
{
    let mut r = String::new();
    let mut i: usize = 0;
    assert(texts(pieces@).take(0) == Seq::<Seq<char>>::empty());
    while i < pieces.len()
        invariant
            i <= pieces@.len(),
            r@ == join(texts(pieces@).take(i as int), sep@),
        decreases pieces@.len() - i,
    {
        let ghost now = texts(pieces@).take(i + 1);
        assert(now.drop_last() == texts(pieces@).take(i as int));
        assert(now.last() == pieces@[i as int]@);
        if i > 0 {
            r.append(sep);
        }
        r.append(pieces[i].as_str());
        assert(r@ == join(now, sep@));
        i = i + 1;
    }
    assert(texts(pieces@).take(i as int) == texts(pieces@));
    r
}

/// Text without a separator goes into the last piece.
pub proof fn lemma_split_tail(a: Seq<char>, b: Seq<char>, sep: char)
    requires
        !b.contains(sep),
    ensures
        split(a + b, sep) == split(a, sep).drop_last().push(split(a, sep).last() + b),
    decreases b.len(),
{
    lemma_split_nonempty(a, sep);
    if b.len() == 0 {
        assert(a + b == a);
        assert(split(a, sep).last() + b == split(a, sep).last());
        assert(split(a, sep) == split(a, sep).drop_last().push(split(a, sep).last()));
    } else {
        let c = b.drop_last();
        assert forall|i: int| 0 <= i < c.len() implies c[i] != sep by {
            assert(b.contains(b[i]));
        }
        lemma_split_tail(a, c, sep);
        assert((a + b).drop_last() == a + c);
        assert((a + b).last() == b.last());
        assert(b.contains(b.last()));
        let pieces = split(a + c, sep);
        assert(pieces.drop_last() == split(a, sep).drop_last());
        assert(pieces.last().push(b.last()) == split(a, sep).last() + b);
    }
}

/// The pieces on both sides of a separator.
pub proof fn lemma_split_at_sep(a: Seq<char>, b: Seq<char>, sep: char)
    ensures
        split(a.push(sep) + b, sep) == split(a, sep) + split(b, sep),
    decreases b.len(),
{
    let whole = a.push(sep) + b;
    if b.len() == 0 {
        assert(whole =~= a.push(sep));
        assert(a.push(sep).drop_last() =~= a);
        assert(split(b, sep) =~= seq![Seq::<char>::empty()]);
        assert(split(whole, sep) =~= split(a, sep) + split(b, sep));
    } else {
        let c = b.drop_last();
        lemma_split_at_sep(a, c, sep);
        lemma_split_nonempty(c, sep);
        assert(whole.drop_last() =~= a.push(sep) + c);
        assert(whole.last() == b.last());
        assert(split(whole, sep) =~= split(a, sep) + split(b, sep));
    }
}

/// No piece of a split holds the separator.
pub proof fn lemma_split_pieces_are_clean(s: Seq<char>, sep: char)
    ensures
        forall|i: int| 0 <= i < split(s, sep).len() ==> !(#[trigger] split(s, sep)[i]).contains(sep),
    decreases s.len(),
{
    if s.len() > 0 {
        lemma_split_pieces_are_clean(s.drop_last(), sep);
        lemma_split_nonempty(s.drop_last(), sep);
        let before = split(s.drop_last(), sep);
        assert forall|i: int| 0 <= i < split(s, sep).len() implies !(#[trigger] split(
            s,
            sep,
        )[i]).contains(sep) by {
            if i < before.len() - 1 {
                assert(split(s, sep)[i] == before[i]);
            } else if s.last() != sep {
                let piece = before.last();
                assert(!before[before.len() - 1].contains(sep));
                assert forall|j: int| 0 <= j < piece.push(s.last()).len() implies piece.push(
                    s.last(),
                )[j] != sep by {
                    if j < piece.len() {
                        assert(piece.contains(piece[j]));
                    }
                }
            } else if i == before.len() - 1 {
                assert(split(s, sep)[i] == before[i]);
            }
        }
    }
}

/// Splitting undoes joining, when no piece holds the separator.
pub proof fn lemma_split_join(pieces: Seq<Seq<char>>, sep: char)
    requires
        pieces.len() > 0,
        forall|i: int| 0 <= i < pieces.len() ==> !(#[trigger] pieces[i]).contains(sep),
    ensures
        split(join(pieces, seq![sep]), sep) == pieces,
    decreases pieces.len(),
{
    let last = pieces.last();
    assert(!pieces[pieces.len() - 1].contains(sep));
    if pieces.len() == 1 {
        let none = Seq::<char>::empty();
        lemma_split_tail(none, last, sep);
        assert(none + last == last);
        assert(split(none, sep) == seq![none]);
        assert(split(last, sep) == pieces);
    } else {
        let init = pieces.drop_last();
        assert forall|i: int| 0 <= i < init.len() implies !(#[trigger] init[i]).contains(sep) by {
            assert(init[i] == pieces[i]);
        }
        lemma_split_join(init, sep);
        let head = join(init, seq![sep]) + seq![sep];
        assert(head.drop_last() == join(init, seq![sep]));
        assert(head.last() == sep);
        assert(split(head, sep) == init.push(Seq::<char>::empty()));
        lemma_split_tail(head, last, sep);
        assert(Seq::<char>::empty() + last == last);
        assert(split(head, sep).drop_last() == init);
        assert(init.push(last) == pieces);
    }
}

/// The number that a sequence of decimal digits stands for.
pub open spec fn digits_value(s: Seq<char>) -> nat
    decreases s.len(),
{
    if s.len() == 0 {
        0
    } else {
        digits_value(s.drop_last()) * 10 + (s.last() as nat - '0' as nat) as nat
    }
}

pub open spec fn all_digits(s: Seq<char>) -> bool {
    forall|i: int| 0 <= i < s.len() ==> is_ascii_digit(#[trigger] s[i])
}

/// The number that `s` writes in decimal, with or without a plus sign; `None`
/// when it is something else or does not fit 64 bits.
pub open spec fn decimal_value(s: Seq<char>) -> Option<u64> {
    let digits = if s.len() > 0 && s[0] == '+' {
        s.drop_first()
    } else {
        s
    };
    if digits.len() > 0 && all_digits(digits) && digits_value(digits) <= u64::MAX {
        Some(digits_value(digits) as u64)
    } else {
        None
    }
}

proof fn lemma_digits_value_grows(s: Seq<char>, n: int)
    requires
        0 <= n <= s.len(),
    ensures
        digits_value(s.take(n)) <= digits_value(s),
    decreases s.len(),
{
    if n == s.len() {
        assert(s.take(n) == s);
    } else {
        lemma_digits_value_grows(s.drop_last(), n);
        assert(s.drop_last().take(n) == s.take(n));
    }
}

/// The number that `s` writes in decimal.
pub fn parse_decimal(s: &str) -> (r: Option<u64>)
    ensures
        r == decimal_value(s@),
{
    let chars = chars_of(s);
    let start: usize = if chars.len() > 0 && chars[0] == '+' {
        1
    } else {
        0
    };
    let ghost digits = s@.skip(start as int);
    assert(start == 1 ==> digits == s@.drop_first());
    assert(start == 0 ==> digits == s@);
    if start == chars.len() {
        return None;
    }
    let mut value: u64 = 0;
    let mut i: usize = start;
    assert(digits.take(0) == Seq::<char>::empty());
    while i < chars.len()
        invariant
            start <= i <= chars@.len(),
            chars@ == s@,
            digits == s@.skip(start as int),
            digits == if s@.len() > 0 && s@[0] == '+' {
                s@.drop_first()
            } else {
                s@
            },
            forall|j: int| 0 <= j < i - start ==> is_ascii_digit(#[trigger] digits[j]),
            value == digits_value(digits.take(i - start)),
        decreases chars@.len() - i,
    {
        let c = chars[i];
        assert(digits[i - start] == c);
        if !('0' <= c && c <= '9') {
            return None;
        }
        let ghost now = digits.take(i - start + 1);
        assert(now.drop_last() == digits.take(i - start));
        assert(now.last() == c);
        let d: u64 = (c as u8 - 48) as u64;
        assert(digits_value(now) == value * 10 + d);
        if value > 1844674407370955161 || (value == 1844674407370955161 && d > 5) {
            proof {
                lemma_digits_value_grows(digits, i - start + 1);
            }
            return None;
        }
        value = value * 10 + d;
        i = i + 1;
    }
    assert(digits.take(i - start) == digits);
    Some(value)
}

/// Lower case and upper case differ in the letters from A to Z alone: no capital is left in
/// lower case and no small letter in upper case, each undoes the other, and every other
/// character stays.
pub proof fn law_case_is_a_matter_of_letters(c: char)
    ensures
        'A' <= c && c <= 'Z' ==> lower_char(c) as int - 'a' as int == c as int - 'A' as int,
        'a' <= c && c <= 'z' ==> upper_char(c) as int - 'A' as int == c as int - 'a' as int,
        !is_ascii_letter(c) ==> lower_char(c) == c && upper_char(c) == c,
        lower_char(upper_char(c)) == lower_char(c),
        upper_char(lower_char(c)) == upper_char(c),
        lower_char(lower_char(c)) == lower_char(c),
        upper_char(upper_char(c)) == upper_char(c),
        is_ascii_letter(c) <==> lower_char(c) != upper_char(c),
{
}

/// The case of a text is that of each of its characters.
pub proof fn law_texts_are_folded_character_by_character(a: Seq<char>, b: Seq<char>)
    ensures
        lower(a).len() == a.len() && upper(a).len() == a.len(),
        lower(a + b) == lower(a) + lower(b),
        upper(a + b) == upper(a) + upper(b),
        lower(upper(a)) == lower(a),
        upper(lower(a)) == upper(a),
        forall|i: int| 0 <= i < a.len() ==> #[trigger] lower(a)[i] == lower_char(a[i]),
        forall|i: int| 0 <= i < a.len() ==> #[trigger] upper(a)[i] == upper_char(a[i]),
{
    assert forall|i: int| 0 <= i < a.len() implies lower_char(upper_char(a[i])) == lower_char(
        a[i],
    ) && upper_char(lower_char(a[i])) == upper_char(a[i]) by {
        law_case_is_a_matter_of_letters(a[i]);
    }
    assert(lower(upper(a)) =~= lower(a));
    assert(upper(lower(a)) =~= upper(a));
    assert(lower(a + b) =~= lower(a) + lower(b));
    assert(upper(a + b) =~= upper(a) + upper(b));
}

/// Splitting and joining undo each other: the pieces of a text hold no separator, and
/// joined they are the text again.
pub proof fn law_joining_undoes_splitting(s: Seq<char>, sep: char)
    ensures
        join(split(s, sep), seq![sep]) == s,
        split(s, sep).len() >= 1,
        forall|i: int| 0 <= i < split(s, sep).len() ==> !(#[trigger] split(s, sep)[i]).contains(sep),
{
    lemma_split_pieces_are_clean(s, sep);
    lemma_split_nonempty(s, sep);
    lemma_join_split(s, sep);
}

proof fn lemma_join_split(s: Seq<char>, sep: char)
    ensures
        join(split(s, sep), seq![sep]) == s,
    decreases s.len(),
{
    if s.len() == 0 {
        assert(s =~= Seq::<char>::empty());
    } else {
        let init = s.drop_last();
        let pieces = split(init, sep);
        lemma_split_nonempty(init, sep);
        lemma_join_split(init, sep);
        if s.last() == sep {
            let more = pieces.push(Seq::<char>::empty());
            assert(more.drop_last() =~= pieces);
            assert(join(pieces, seq![sep]) + seq![sep] + Seq::<char>::empty() =~= s);
        } else {
            let longer = pieces.last().push(s.last());
            let more = pieces.drop_last().push(longer);
            assert(more.drop_last() =~= pieces.drop_last());
            if pieces.len() > 1 {
                let head = join(pieces.drop_last(), seq![sep]) + seq![sep];
                assert(init == head + pieces.last());
                assert(init.push(s.last()) =~= s);
                assert(head + longer =~= (head + pieces.last()).push(s.last()));
            } else {
                assert(longer =~= s);
            }
        }
    }
}

/// Whether there is nothing but white space in `s`.
pub open spec fn is_blank(s: Seq<char>) -> bool {
    forall|i: int| 0 <= i < s.len() ==> is_space(#[trigger] s[i])
}

/// Trimming takes the white space at either end off a text, and nothing else: whatever stands
/// between white space, and neither begins nor ends with any, is what is left.
pub proof fn law_trimming_takes_off_white_space(a: Seq<char>, s: Seq<char>, b: Seq<char>)
    requires
        is_blank(a),
        is_blank(b),
        s.len() > 0 ==> !is_space(s[0]) && !is_space(s.last()),
    ensures
        trim(a + s + b) == s,
{
    let whole = a + s + b;
    if s.len() == 0 {
        assert(is_blank(whole));
        lemma_trim_start(whole, Seq::empty());
        assert(whole + Seq::<char>::empty() =~= whole);
        assert(s =~= Seq::<char>::empty());
    } else {
        assert(whole =~= a + (s + b));
        lemma_trim_start(a, s + b);
        lemma_trim_end(s, b);
    }
}

proof fn lemma_trim_start(a: Seq<char>, s: Seq<char>)
    requires
        is_blank(a),
        s.len() > 0 ==> !is_space(s[0]),
    ensures
        trim_start(a + s) == s,
    decreases a.len(),
{
    if a.len() == 0 {
        assert(a + s =~= s);
    } else {
        let rest = a.drop_first();
        assert((a + s).drop_first() =~= rest + s);
        assert forall|i: int| 0 <= i < rest.len() implies is_space(#[trigger] rest[i]) by {
            assert(rest[i] == a[i + 1]);
        }
        assert((a + s)[0] == a[0]);
        lemma_trim_start(rest, s);
    }
}

proof fn lemma_trim_end(s: Seq<char>, b: Seq<char>)
    requires
        is_blank(b),
        s.len() > 0 ==> !is_space(s.last()),
    ensures
        trim_end(s + b) == s,
    decreases b.len(),
{
    if b.len() == 0 {
        assert(s + b =~= s);
    } else {
        let rest = b.drop_last();
        assert((s + b).drop_last() =~= s + rest);
        assert forall|i: int| 0 <= i < rest.len() implies is_space(#[trigger] rest[i]) by {
            assert(rest[i] == b[i]);
        }
        assert((s + b).last() == b[b.len() - 1]);
        lemma_trim_end(s, rest);
    }
}

/// Of the characters below 128, those from tab to carriage return and the blank are white
/// space; no letter, digit or sign is.
pub proof fn law_blanks_are_white_space(c: char)
    requires
        c < '\u{80}',
    ensures
        is_space(c) <==> c == '\t' || c == '\n' || c == '\u{b}' || c == '\u{c}' || c == '\r' || c
            == ' ',
{
}

/// What stands on either side of a separator goes into a list by itself; a text without a
/// separator is one item, trimmed, unless nothing is left of it.
pub proof fn law_lists_are_parted_at_separators(a: Seq<char>, b: Seq<char>, sep: char)
    ensures
        split_list(a.push(sep) + b, sep) == split_list(a, sep) + split_list(b, sep),
        !a.contains(sep) && trim(a).len() > 0 ==> split_list(a, sep) == seq![trim(a)],
        !a.contains(sep) && trim(a).len() == 0 ==> split_list(a, sep).len() == 0,
{
    lemma_split_at_sep(a, b, sep);
    lemma_trimmed_nonempty_adds_up(split(a, sep), split(b, sep));
    if !a.contains(sep) {
        let none = Seq::<char>::empty();
        lemma_split_tail(none, a, sep);
        assert(none + a =~= a);
        assert(split(none, sep) =~= seq![none]);
        assert(split(a, sep) =~= seq![a]);
        assert(seq![a].drop_last() =~= Seq::<Seq<char>>::empty());
        reveal_with_fuel(trimmed_nonempty, 2);
        assert(trim(a).len() > 0 ==> split_list(a, sep) =~= seq![trim(a)]);
    }
}

proof fn lemma_trimmed_nonempty_adds_up(a: Seq<Seq<char>>, b: Seq<Seq<char>>)
    ensures
        trimmed_nonempty(a + b) == trimmed_nonempty(a) + trimmed_nonempty(b),
    decreases b.len(),
{
    if b.len() == 0 {
        assert(a + b =~= a);
        assert(trimmed_nonempty(a) + trimmed_nonempty(b) =~= trimmed_nonempty(a));
    } else {
        assert((a + b).drop_last() =~= a + b.drop_last());
        assert((a + b).last() == b.last());
        lemma_trimmed_nonempty_adds_up(a, b.drop_last());
        assert(trimmed_nonempty(a + b) =~= trimmed_nonempty(a) + trimmed_nonempty(b));
    }
}

/// A number that is written in decimal is read back as itself, with a plus sign before it or
/// not. It is written in digits alone, and the first is no zero unless it is the only one.
pub proof fn law_numbers_are_read_back(n: u64)
    ensures
        decimal_value(decimal(n as nat)) == Some(n),
        decimal_value(seq!['+'] + decimal(n as nat)) == Some(n),
        all_digits(decimal(n as nat)),
        decimal(n as nat).len() > 1 ==> decimal(n as nat)[0] != '0',
{
    lemma_decimal(n as nat);
    let d = decimal(n as nat);
    assert((seq!['+'] + d).drop_first() =~= d);
    assert(is_ascii_digit(d[0]));
}

proof fn lemma_decimal(n: nat)
    ensures
        decimal(n).len() > 0,
        all_digits(decimal(n)),
        digits_value(decimal(n)) == n,
        n > 0 ==> decimal(n)[0] != '0',
        decimal(n).len() > 1 ==> n > 0,
    decreases n,
{
    reveal_with_fuel(digits_value, 2);
    if n < 10 {
        assert(decimal(n).drop_last() =~= Seq::<char>::empty());
    } else {
        lemma_decimal(n / 10);
        let d = decimal(n);
        assert(d.drop_last() =~= decimal(n / 10));
        assert(d[0] == decimal(n / 10)[0]);
        assert forall|i: int| 0 <= i < d.len() implies is_ascii_digit(#[trigger] d[i]) by {
            if i < d.len() - 1 {
                assert(d[i] == decimal(n / 10)[i]);
            }
        }
    }
}

/// A text is read as a number exactly where it is one or more digits, behind a plus sign or
/// not, that stand for no more than 64 bits hold. One more digit makes it ten times as much
/// and the digit.
pub proof fn law_digits_make_numbers(s: Seq<char>, c: char)
    ensures
        s.len() > 0 && (exists|i: int| 1 <= i < s.len() && !is_ascii_digit(#[trigger] s[i]))
            ==> decimal_value(s) is None,
        s.len() > 0 && !is_ascii_digit(s[0]) && s[0] != '+' ==> decimal_value(s) is None,
        s.len() == 0 ==> decimal_value(s) is None,
        s == seq!['+'] ==> decimal_value(s) is None,
        is_ascii_digit(c) ==> digits_value(s.push(c)) == 10 * digits_value(s) + (c as int
            - '0' as int),
        decimal_value(s) is Some && is_ascii_digit(c) && 10 * (decimal_value(s)->0) + (c as int
            - '0' as int) <= u64::MAX ==> decimal_value(s.push(c)) == Some(
            (10 * (decimal_value(s)->0) + (c as int - '0' as int)) as u64,
        ),
{
    assert(s.push(c).drop_last() =~= s);
    let plus = s.len() > 0 && s[0] == '+';
    let digits = if plus {
        s.drop_first()
    } else {
        s
    };
    if exists|i: int| 1 <= i < s.len() && !is_ascii_digit(#[trigger] s[i]) {
        let i = choose|i: int| 1 <= i < s.len() && !is_ascii_digit(#[trigger] s[i]);
        if plus {
            assert(digits[i - 1] == s[i]);
        } else {
            assert(digits[i] == s[i]);
        }
    }
    if s.len() > 0 && !plus {
        assert(digits[0] == s[0]);
    }
    if decimal_value(s) is Some && is_ascii_digit(c) {
        let more = digits.push(c);
        assert(more.drop_last() =~= digits);
        assert(plus ==> s.push(c).drop_first() =~= more);
        assert(s.push(c)[0] == s[0]);
        assert forall|i: int| 0 <= i < more.len() implies is_ascii_digit(#[trigger] more[i]) by {
            if i < digits.len() {
                assert(more[i] == digits[i]);
            }
        }
    }
}

/// A negative number is written as a minus sign and what it is without it.
pub proof fn law_negative_numbers_have_a_sign(n: int)
    ensures
        n > 0 ==> decimal_int(-n) == seq!['-'] + decimal_int(n),
        n >= 0 ==> decimal_int(n) == decimal(n as nat),
{
}

/// The number that a hexadecimal digit stands for.
pub open spec fn hex_value(c: char) -> int {
    if is_ascii_digit(c) {
        c as int - '0' as int
    } else {
        c as int - 'a' as int + 10
    }
}

/// Each byte can be read back from its two hexadecimal digits, the higher one first. They are
/// digits or small letters up to f.
pub proof fn law_bytes_are_read_back_from_hexadecimal(bytes: Seq<u8>, i: int)
    requires
        0 <= i < bytes.len(),
    ensures
        hex(bytes).len() == 2 * bytes.len(),
        16 * hex_value(hex(bytes)[2 * i]) + hex_value(hex(bytes)[2 * i + 1]) == bytes[i],
        is_ascii_digit(hex(bytes)[2 * i]) || 'a' <= hex(bytes)[2 * i] && hex(bytes)[2 * i] <= 'f',
        is_ascii_digit(hex(bytes)[2 * i + 1]) || 'a' <= hex(bytes)[2 * i + 1] && hex(bytes)[2 * i
            + 1] <= 'f',
{
    let b = bytes[i] as int;
    assert((2 * i) / 2 == i && (2 * i) % 2 == 0);
    assert((2 * i + 1) / 2 == i && (2 * i + 1) % 2 == 1);
    assert(hex(bytes)[2 * i] == hex_char(b / 16));
    assert(hex(bytes)[2 * i + 1] == hex_char(b % 16));
}

/// Bytes stand before others exactly where, at the first place at which they differ, they have
/// the smaller byte, or end where the others go on.
pub proof fn law_bytes_are_in_dictionary_order(a: Seq<u8>, b: Seq<u8>, n: int)
    requires
        0 <= n <= a.len(),
        n <= b.len(),
        a.take(n) == b.take(n),
        n < a.len() && n < b.len() ==> a[n] != b[n],
    ensures
        n < a.len() && n < b.len() ==> (bytes_before(a, b) <==> a[n] < b[n]),
        n == a.len() ==> (bytes_before(a, b) <==> n < b.len()),
        n == b.len() ==> !bytes_before(a, b),
    decreases n,
{
    if n > 0 {
        assert(a[0] == a.take(n)[0] && b[0] == b.take(n)[0]);
        let (x, y) = (a.drop_first(), b.drop_first());
        assert(x.take(n - 1) =~= a.take(n).drop_first());
        assert(y.take(n - 1) =~= b.take(n).drop_first());
        law_bytes_are_in_dictionary_order(x, y, n - 1);
    }
}

} // verus!
