//! The observed inputs of an action and their stored form.
//!
//! All integers are 32-bit little-endian. A text is its byte length followed by
//! its UTF-8 bytes. The stored form is one byte for `cacheable`, the number of
//! inputs, each input as its logical path, its absolute path and one byte for
//! its kind, then the number of commands and each command as a text.

use crate::text::texts;
use vstd::prelude::*;
use vstd::utf8::{decode_utf8, encode_utf8, valid_utf8};

verus! {

/// What an action saw at an input path.
#[derive(Clone, Copy, Debug, PartialEq, Eq, Structural)]
pub enum InputKind {
    /// A file that it read.
    Content,
    /// Nothing: it looked for a file that was not there.
    Absent,
}

/// One path that an action read or looked for.
#[derive(Clone, Debug, PartialEq, Eq)]
pub struct InputEntry {
    pub logical: String,
    pub absolute: String,
    pub kind: InputKind,
}

/// The observed inputs of an action, the commands it ran, and whether the inputs
/// cover everything that its result depends on.
#[derive(Clone, Debug, PartialEq, Eq)]
pub struct InputManifest {
    pub inputs: Vec<InputEntry>,
    pub cmds: Vec<String>,
    pub cacheable: bool,
}

/// The view of an [`InputEntry`].
#[verifier::ext_equal]
pub struct InputModel {
    pub logical: Seq<char>,
    pub absolute: Seq<char>,
    pub kind: InputKind,
}

/// The view of an [`InputManifest`].
#[verifier::ext_equal]
pub struct ManifestModel {
    pub inputs: Seq<InputModel>,
    pub cmds: Seq<Seq<char>>,
    pub cacheable: bool,
}

impl View for InputEntry {
    type V = InputModel;

    open spec fn view(&self) -> InputModel {
        InputModel { logical: self.logical@, absolute: self.absolute@, kind: self.kind }
    }
}

impl View for InputManifest {
    type V = ManifestModel;

    open spec fn view(&self) -> ManifestModel {
        ManifestModel {
            inputs: Seq::new(self.inputs@.len(), |i: int| self.inputs@[i]@),
            cmds: texts(self.cmds@),
            cacheable: self.cacheable,
        }
    }
}

/// The four bytes of `n`, lowest first; higher parts of `n` are lost.
pub open spec fn u32_bytes(n: nat) -> Seq<u8> {
    seq![
        (n % 256) as u8,
        (n / 256 % 256) as u8,
        (n / 65536 % 256) as u8,
        (n / 16777216 % 256) as u8,
    ]
}

pub open spec fn text_bytes(s: Seq<char>) -> Seq<u8> {
    u32_bytes(encode_utf8(s).len()) + encode_utf8(s)
}

pub open spec fn kind_code(k: InputKind) -> u8 {
    match k {
        InputKind::Content => 0,
        InputKind::Absent => 1,
    }
}

pub open spec fn input_bytes(e: InputModel) -> Seq<u8> {
    (text_bytes(e.logical) + text_bytes(e.absolute)).push(kind_code(e.kind))
}

pub open spec fn inputs_bytes(list: Seq<InputModel>) -> Seq<u8>
    decreases list.len(),
{
    if list.len() == 0 {
        Seq::empty()
    } else {
        inputs_bytes(list.drop_last()) + input_bytes(list.last())
    }
}

pub open spec fn texts_bytes(list: Seq<Seq<char>>) -> Seq<u8>
    decreases list.len(),
{
    if list.len() == 0 {
        Seq::empty()
    } else {
        texts_bytes(list.drop_last()) + text_bytes(list.last())
    }
}

/// The stored form behind its first byte.
pub open spec fn body_bytes(m: ManifestModel) -> Seq<u8> {
    u32_bytes(m.inputs.len()) + inputs_bytes(m.inputs) + u32_bytes(m.cmds.len()) + texts_bytes(
        m.cmds,
    )
}

/// The stored form of a manifest.
pub open spec fn manifest_bytes(m: ManifestModel) -> Seq<u8> {
    seq![
        if m.cacheable {
            1u8
        } else {
            0u8
        },
    ] + body_bytes(m)
}

/// Whether the length of a text fits its length field.
pub open spec fn text_fits(s: Seq<char>) -> bool {
    encode_utf8(s).len() <= u32::MAX
}

/// Whether every count and length of a manifest fits its field.
pub open spec fn manifest_fits(m: ManifestModel) -> bool {
    &&& m.inputs.len() <= u32::MAX
    &&& m.cmds.len() <= u32::MAX
    &&& forall|i: int|
        0 <= i < m.inputs.len() ==> text_fits((#[trigger] m.inputs[i]).logical) && text_fits(
            m.inputs[i].absolute,
        )
    &&& forall|i: int| 0 <= i < m.cmds.len() ==> text_fits(#[trigger] m.cmds[i])
}

/// Whether `b` is a stored form of `m`: any first byte but zero stands for a
/// cacheable manifest.
pub open spec fn stores(b: Seq<u8>, m: ManifestModel) -> bool {
    &&& b.len() > 0
    &&& m.cacheable == (b[0] != 0)
    &&& b.drop_first() == body_bytes(m)
    &&& manifest_fits(m)
}

fn put_u32(buf: &mut Vec<u8>, n: usize)
    ensures
        final(buf)@ == old(buf)@ + u32_bytes(n as nat),
{
    buf.push((n % 256) as u8);
    buf.push((n / 256 % 256) as u8);
    buf.push((n / 65536 % 256) as u8);
    buf.push((n / 16777216 % 256) as u8);
    assert(buf@ =~= old(buf)@ + u32_bytes(n as nat));
}

fn put_str(buf: &mut Vec<u8>, s: &str)
    ensures
        final(buf)@ == old(buf)@ + text_bytes(s@),
{
    let bytes = s.as_bytes();
    put_u32(buf, bytes.len());
    buf.extend_from_slice(bytes);
    assert(buf@ =~= old(buf)@ + text_bytes(s@));
}

/// The stored form of a manifest.
pub fn encode_manifest(m: &InputManifest) -> (r: Vec<u8>)
    ensures
        r@ == manifest_bytes(m@),
{
    let mut buf: Vec<u8> = Vec::new();
    buf.push(
        if m.cacheable {
            1
        } else {
            0
        },
    );
    put_u32(&mut buf, m.inputs.len());
    let ghost head = buf@;
    let mut i: usize = 0;
    assert(m@.inputs.take(0) == Seq::<InputModel>::empty());
    assert(buf@ =~= head + inputs_bytes(m@.inputs.take(0)));
    while i < m.inputs.len()
        invariant
            i <= m.inputs@.len(),
            buf@ == head + inputs_bytes(m@.inputs.take(i as int)),
        decreases m.inputs@.len() - i,
    {
        let e = &m.inputs[i];
        put_str(&mut buf, e.logical.as_str());
        put_str(&mut buf, e.absolute.as_str());
        buf.push(
            match e.kind {
                InputKind::Content => 0,
                InputKind::Absent => 1,
            },
        );
        let ghost now = m@.inputs.take(i + 1);
        assert(now.drop_last() == m@.inputs.take(i as int));
        assert(now.last() == e@);
        assert(buf@ =~= head + inputs_bytes(now));
        i = i + 1;
    }
    assert(m@.inputs.take(i as int) == m@.inputs);
    put_u32(&mut buf, m.cmds.len());
    let ghost middle = buf@;
    let mut j: usize = 0;
    assert(m@.cmds.take(0) == Seq::<Seq<char>>::empty());
    assert(buf@ =~= middle + texts_bytes(m@.cmds.take(0)));
    while j < m.cmds.len()
        invariant
            j <= m.cmds@.len(),
            buf@ == middle + texts_bytes(m@.cmds.take(j as int)),
        decreases m.cmds@.len() - j,
    {
        put_str(&mut buf, m.cmds[j].as_str());
        let ghost now = m@.cmds.take(j + 1);
        assert(now.drop_last() == m@.cmds.take(j as int));
        assert(now.last() == m.cmds@[j as int]@);
        assert(buf@ =~= middle + texts_bytes(now));
        j = j + 1;
    }
    assert(m@.cmds.take(j as int) == m@.cmds);
    assert(buf@ =~= manifest_bytes(m@));
    buf
}

/// The number in the first four bytes of `b`, and the rest.
pub open spec fn take_u32(b: Seq<u8>) -> Option<(nat, Seq<u8>)> {
    if b.len() < 4 {
        None
    } else {
        Some(
            (
                (b[0] + 256 * b[1] + 65536 * b[2] + 16777216 * b[3]) as nat,
                b.skip(4),
            ),
        )
    }
}

/// The text at the start of `b`, and the rest.
pub open spec fn take_text(b: Seq<u8>) -> Option<(Seq<char>, Seq<u8>)> {
    match take_u32(b) {
        Some((n, rest)) => if rest.len() < n || !valid_utf8(rest.take(n as int)) {
            None
        } else {
            Some((decode_utf8(rest.take(n as int)), rest.skip(n as int)))
        },
        None => None,
    }
}

/// The input at the start of `b`, and the rest.
pub open spec fn take_input(b: Seq<u8>) -> Option<(InputModel, Seq<u8>)> {
    match take_text(b) {
        Some((logical, b1)) => match take_text(b1) {
            Some((absolute, b2)) => if b2.len() == 0 || b2[0] > 1 {
                None
            } else {
                Some(
                    (
                        InputModel {
                            logical,
                            absolute,
                            kind: if b2[0] == 0 {
                                InputKind::Content
                            } else {
                                InputKind::Absent
                            },
                        },
                        b2.drop_first(),
                    ),
                )
            },
            None => None,
        },
        None => None,
    }
}

/// The first `n` inputs of `b`, and the rest.
pub open spec fn take_inputs(b: Seq<u8>, n: nat) -> Option<(Seq<InputModel>, Seq<u8>)>
    decreases n,
{
    if n == 0 {
        Some((Seq::empty(), b))
    } else {
        match take_inputs(b, (n - 1) as nat) {
            Some((list, rest)) => match take_input(rest) {
                Some((e, rest)) => Some((list.push(e), rest)),
                None => None,
            },
            None => None,
        }
    }
}

/// The first `n` texts of `b`, and the rest.
pub open spec fn take_texts(b: Seq<u8>, n: nat) -> Option<(Seq<Seq<char>>, Seq<u8>)>
    decreases n,
{
    if n == 0 {
        Some((Seq::empty(), b))
    } else {
        match take_texts(b, (n - 1) as nat) {
            Some((list, rest)) => match take_text(rest) {
                Some((s, rest)) => Some((list.push(s), rest)),
                None => None,
            },
            None => None,
        }
    }
}

/// The inputs and commands at the start of `b`, and the rest.
pub open spec fn take_body(b: Seq<u8>) -> Option<(Seq<InputModel>, Seq<Seq<char>>, Seq<u8>)> {
    match take_u32(b) {
        Some((n, b1)) => match take_inputs(b1, n) {
            Some((inputs, b2)) => match take_u32(b2) {
                Some((k, b3)) => match take_texts(b3, k) {
                    Some((cmds, b4)) => Some((inputs, cmds, b4)),
                    None => None,
                },
                None => None,
            },
            None => None,
        },
        None => None,
    }
}

/// The manifest that `b` is a stored form of.
pub open spec fn parse(b: Seq<u8>) -> Option<ManifestModel> {
    if b.len() == 0 {
        None
    } else {
        match take_body(b.drop_first()) {
            Some((inputs, cmds, rest)) => if rest.len() == 0 {
                Some(ManifestModel { inputs, cmds, cacheable: b[0] != 0 })
            } else {
                None
            },
            None => None,
        }
    }
}

proof fn lemma_u32_parse(n: nat, rest: Seq<u8>)
    requires
        n <= u32::MAX,
    ensures
        take_u32(u32_bytes(n) + rest) == Some((n, rest)),
{
    let b = u32_bytes(n) + rest;
    assert(b.skip(4) =~= rest);
    assert(n == n % 256 + 256 * (n / 256 % 256) + 65536 * (n / 65536 % 256) + 16777216 * (n
        / 16777216 % 256)) by (nonlinear_arith)
        requires
            n <= 4294967295,
    ;
    assert(b[0] == (n % 256) as u8);
    assert(b[1] == (n / 256 % 256) as u8);
    assert(b[2] == (n / 65536 % 256) as u8);
    assert(b[3] == (n / 16777216 % 256) as u8);
}

proof fn lemma_u32_unparse(b: Seq<u8>)
    requires
        take_u32(b) is Some,
    ensures
        (take_u32(b)->0).0 <= u32::MAX,
        b == u32_bytes((take_u32(b)->0).0) + (take_u32(b)->0).1,
{
    let (n, rest) = take_u32(b)->0;
    let (b0, b1, b2, b3) = (b[0] as nat, b[1] as nat, b[2] as nat, b[3] as nat);
    assert(n % 256 == b0 && n / 256 % 256 == b1 && n / 65536 % 256 == b2 && n / 16777216 % 256
        == b3) by (nonlinear_arith)
        requires
            n == b0 + 256 * b1 + 65536 * b2 + 16777216 * b3,
            b0 < 256,
            b1 < 256,
            b2 < 256,
            b3 < 256,
    ;
    assert(b =~= u32_bytes(n) + rest);
}

proof fn lemma_text_parse(s: Seq<char>, rest: Seq<u8>)
    requires
        text_fits(s),
    ensures
        take_text(text_bytes(s) + rest) == Some((s, rest)),
{
    let e = encode_utf8(s);
    assert(text_bytes(s) + rest =~= u32_bytes(e.len()) + (e + rest));
    lemma_u32_parse(e.len(), e + rest);
    assert((e + rest).take(e.len() as int) =~= e);
    assert((e + rest).skip(e.len() as int) =~= rest);
    vstd::utf8::encode_utf8_valid_utf8(s);
    vstd::utf8::encode_utf8_decode_utf8(s);
}

proof fn lemma_text_unparse(b: Seq<u8>)
    requires
        take_text(b) is Some,
    ensures
        text_fits((take_text(b)->0).0),
        b == text_bytes((take_text(b)->0).0) + (take_text(b)->0).1,
{
    lemma_u32_unparse(b);
    let (n, rest) = take_u32(b)->0;
    let bytes = rest.take(n as int);
    vstd::utf8::decode_utf8_encode_utf8(bytes);
    assert(rest =~= bytes + rest.skip(n as int));
    assert(b =~= text_bytes((take_text(b)->0).0) + (take_text(b)->0).1);
}

proof fn lemma_input_parse(e: InputModel, rest: Seq<u8>)
    requires
        text_fits(e.logical),
        text_fits(e.absolute),
    ensures
        take_input(input_bytes(e) + rest) == Some((e, rest)),
{
    let tail = seq![kind_code(e.kind)] + rest;
    assert(input_bytes(e) + rest =~= text_bytes(e.logical) + (text_bytes(e.absolute) + tail));
    lemma_text_parse(e.logical, text_bytes(e.absolute) + tail);
    lemma_text_parse(e.absolute, tail);
    assert(tail.drop_first() =~= rest);
}

proof fn lemma_input_unparse(b: Seq<u8>)
    requires
        take_input(b) is Some,
    ensures
        text_fits((take_input(b)->0).0.logical),
        text_fits((take_input(b)->0).0.absolute),
        b == input_bytes((take_input(b)->0).0) + (take_input(b)->0).1,
{
    lemma_text_unparse(b);
    let (logical, b1) = take_text(b)->0;
    lemma_text_unparse(b1);
    let (absolute, b2) = take_text(b1)->0;
    assert(b2 =~= seq![b2[0]] + b2.drop_first());
    assert(b =~= input_bytes((take_input(b)->0).0) + (take_input(b)->0).1);
}

proof fn lemma_regroup(a: Seq<u8>, b: Seq<u8>, c: Seq<u8>)
    ensures
        (a + b) + c == a + (b + c),
{
    assert((a + b) + c =~= a + (b + c));
}

proof fn lemma_inputs_step(
    b: Seq<u8>,
    list: Seq<InputModel>,
    middle: Seq<u8>,
    e: InputModel,
    rest: Seq<u8>,
)
    requires
        take_inputs(b, list.len()) == Some((list, middle)),
        take_input(middle) == Some((e, rest)),
    ensures
        take_inputs(b, list.len() + 1) == Some((list.push(e), rest)),
{
}

#[verifier::spinoff_prover]
proof fn lemma_inputs_parse(list: Seq<InputModel>, rest: Seq<u8>)
    requires
        forall|i: int|
            0 <= i < list.len() ==> text_fits((#[trigger] list[i]).logical) && text_fits(
                list[i].absolute,
            ),
    ensures
        take_inputs(inputs_bytes(list) + rest, list.len()) == Some((list, rest)),
    decreases list.len(),
{
    if list.len() == 0 {
        assert(inputs_bytes(list) + rest =~= rest);
        assert(list =~= Seq::<InputModel>::empty());
    } else {
        let init = list.drop_last();
        let e = list.last();
        assert forall|i: int| 0 <= i < init.len() implies text_fits((#[trigger] init[i]).logical)
            && text_fits(init[i].absolute) by {
            assert(init[i] == list[i]);
        }
        let middle = input_bytes(e) + rest;
        lemma_inputs_parse(init, middle);
        lemma_regroup(inputs_bytes(init), input_bytes(e), rest);
        assert(text_fits(list[list.len() - 1].logical));
        lemma_input_parse(e, rest);
        lemma_inputs_step(inputs_bytes(init) + middle, init, middle, e, rest);
        assert(init.push(e) =~= list);
    }
}

proof fn lemma_inputs_unparse(b: Seq<u8>, n: nat)
    requires
        take_inputs(b, n) is Some,
    ensures
        (take_inputs(b, n)->0).0.len() == n,
        forall|i: int|
            0 <= i < n ==> text_fits((#[trigger] (take_inputs(b, n)->0).0[i]).logical) && text_fits(
                (take_inputs(b, n)->0).0[i].absolute,
            ),
        b == inputs_bytes((take_inputs(b, n)->0).0) + (take_inputs(b, n)->0).1,
    decreases n,
{
    if n == 0 {
        assert(b =~= inputs_bytes((take_inputs(b, n)->0).0) + (take_inputs(b, n)->0).1);
    } else {
        lemma_inputs_unparse(b, (n - 1) as nat);
        let (list, rest) = take_inputs(b, (n - 1) as nat)->0;
        lemma_input_unparse(rest);
        let (e, rest2) = take_input(rest)->0;
        let all = list.push(e);
        assert(all.drop_last() =~= list);
        assert(b =~= inputs_bytes(all) + rest2);
        assert forall|i: int| 0 <= i < n implies text_fits((#[trigger] all[i]).logical) && text_fits(
            all[i].absolute,
        ) by {
            if i < n - 1 {
                assert(all[i] == list[i]);
            }
        }
    }
}

proof fn lemma_texts_parse(list: Seq<Seq<char>>, rest: Seq<u8>)
    requires
        forall|i: int| 0 <= i < list.len() ==> text_fits(#[trigger] list[i]),
    ensures
        take_texts(texts_bytes(list) + rest, list.len()) == Some((list, rest)),
    decreases list.len(),
{
    if list.len() == 0 {
        assert(texts_bytes(list) + rest =~= rest);
        assert(list =~= Seq::<Seq<char>>::empty());
    } else {
        let init = list.drop_last();
        let s = list.last();
        assert forall|i: int| 0 <= i < init.len() implies text_fits(#[trigger] init[i]) by {
            assert(init[i] == list[i]);
        }
        lemma_texts_parse(init, text_bytes(s) + rest);
        assert(texts_bytes(list) + rest =~= texts_bytes(init) + (text_bytes(s) + rest));
        assert(text_fits(list[list.len() - 1]));
        lemma_text_parse(s, rest);
        assert(init.push(s) =~= list);
    }
}

proof fn lemma_texts_unparse(b: Seq<u8>, n: nat)
    requires
        take_texts(b, n) is Some,
    ensures
        (take_texts(b, n)->0).0.len() == n,
        forall|i: int| 0 <= i < n ==> text_fits(#[trigger] (take_texts(b, n)->0).0[i]),
        b == texts_bytes((take_texts(b, n)->0).0) + (take_texts(b, n)->0).1,
    decreases n,
{
    if n == 0 {
        assert(b =~= texts_bytes((take_texts(b, n)->0).0) + (take_texts(b, n)->0).1);
    } else {
        lemma_texts_unparse(b, (n - 1) as nat);
        let (list, rest) = take_texts(b, (n - 1) as nat)->0;
        lemma_text_unparse(rest);
        let (s, rest2) = take_text(rest)->0;
        let all = list.push(s);
        assert(all.drop_last() =~= list);
        assert(b =~= texts_bytes(all) + rest2);
        assert forall|i: int| 0 <= i < n implies text_fits(#[trigger] all[i]) by {
            if i < n - 1 {
                assert(all[i] == list[i]);
            }
        }
    }
}

proof fn lemma_body_parse(m: ManifestModel, rest: Seq<u8>)
    requires
        manifest_fits(m),
    ensures
        take_body(body_bytes(m) + rest) == Some((m.inputs, m.cmds, rest)),
{
    let after_texts = texts_bytes(m.cmds) + rest;
    let after_inputs = u32_bytes(m.cmds.len()) + after_texts;
    let after_count = inputs_bytes(m.inputs) + after_inputs;
    assert(body_bytes(m) + rest =~= u32_bytes(m.inputs.len()) + after_count);
    lemma_u32_parse(m.inputs.len(), after_count);
    lemma_inputs_parse(m.inputs, after_inputs);
    lemma_u32_parse(m.cmds.len(), after_texts);
    lemma_texts_parse(m.cmds, rest);
}

/// A stored form is read back as the manifest that it stores.
proof fn lemma_parse_stored(b: Seq<u8>, m: ManifestModel)
    requires
        stores(b, m),
    ensures
        parse(b) == Some(m),
{
    lemma_body_parse(m, Seq::empty());
    assert(body_bytes(m) + Seq::<u8>::empty() =~= body_bytes(m));
}

/// What is read back is what the bytes store.
proof fn lemma_stored_parse(b: Seq<u8>)
    requires
        parse(b) is Some,
    ensures
        stores(b, parse(b)->0),
{
    let m = parse(b)->0;
    let body = b.drop_first();
    lemma_u32_unparse(body);
    let (n, b1) = take_u32(body)->0;
    lemma_inputs_unparse(b1, n);
    let (inputs, b2) = take_inputs(b1, n)->0;
    lemma_u32_unparse(b2);
    let (k, b3) = take_u32(b2)->0;
    lemma_texts_unparse(b3, k);
    let (cmds, b4) = take_texts(b3, k)->0;
    assert(body =~= body_bytes(m));
    assert forall|i: int| 0 <= i < m.inputs.len() implies text_fits(
        (#[trigger] m.inputs[i]).logical,
    ) && text_fits(m.inputs[i].absolute) by {
        assert(m.inputs[i] == inputs[i]);
    }
    assert forall|i: int| 0 <= i < m.cmds.len() implies text_fits(#[trigger] m.cmds[i]) by {
        assert(m.cmds[i] == cmds[i]);
    }
}

/// `String::from_utf8`: the text of valid UTF-8 bytes, and an error for others.
#[verifier::external_body]
fn utf8_text(bytes: Vec<u8>) -> (r: Option<String>)
    ensures
        match r {
            Some(s) => valid_utf8(bytes@) && s@ == decode_utf8(bytes@),
            None => !valid_utf8(bytes@),
        },
{
    String::from_utf8(bytes).ok()
}

fn get_u32(buf: &[u8], pos: &mut usize) -> (r: Option<u32>)
    requires
        *old(pos) <= buf@.len(),
    ensures
        *final(pos) <= buf@.len(),
        match take_u32(buf@.skip(*old(pos) as int)) {
            Some((n, rest)) => r matches Some(v) && v == n && buf@.skip(*final(pos) as int) == rest,
            None => r is None,
        },
{
    let ghost b = buf@.skip(*pos as int);
    if buf.len() - *pos < 4 {
        return None;
    }
    let i: usize = *pos;
    let b0: u64 = buf[i] as u64;
    let b1: u64 = buf[i + 1] as u64;
    let b2: u64 = buf[i + 2] as u64;
    let b3: u64 = buf[i + 3] as u64;
    assert(b[0] == b0 && b[1] == b1 && b[2] == b2 && b[3] == b3);
    *pos = i + 4;
    assert(b.skip(4) =~= buf@.skip(*pos as int));
    Some((b0 + 256 * b1 + 65536 * b2 + 16777216 * b3) as u32)
}

fn get_str(buf: &[u8], pos: &mut usize) -> (r: Option<String>)
    requires
        *old(pos) <= buf@.len(),
    ensures
        *final(pos) <= buf@.len(),
        match take_text(buf@.skip(*old(pos) as int)) {
            Some((s, rest)) => r matches Some(v) && v@ == s && buf@.skip(*final(pos) as int) == rest,
            None => r is None,
        },
{
    let len: usize = match get_u32(buf, pos) {
        Some(n) => n as usize,
        None => {
            return None;
        },
    };
    let ghost b = buf@.skip(*pos as int);
    if buf.len() - *pos < len {
        return None;
    }
    let start: usize = *pos;
    let end: usize = start + len;
    let bytes = vstd::slice::slice_to_vec(vstd::slice::slice_subrange(buf, start, end));
    assert(bytes@ =~= b.take(len as int));
    match utf8_text(bytes) {
        Some(s) => {
            *pos = end;
            assert(b.skip(len as int) =~= buf@.skip(end as int));
            Some(s)
        },
        None => None,
    }
}

fn get_input(buf: &[u8], pos: &mut usize) -> (r: Option<InputEntry>)
    requires
        *old(pos) <= buf@.len(),
    ensures
        *final(pos) <= buf@.len(),
        match take_input(buf@.skip(*old(pos) as int)) {
            Some((e, rest)) => r matches Some(v) && v@ == e && buf@.skip(*final(pos) as int) == rest,
            None => r is None,
        },
{
    let logical = match get_str(buf, pos) {
        Some(s) => s,
        None => {
            return None;
        },
    };
    let absolute = match get_str(buf, pos) {
        Some(s) => s,
        None => {
            return None;
        },
    };
    let ghost b2 = buf@.skip(*pos as int);
    if *pos >= buf.len() {
        return None;
    }
    assert(b2[0] == buf@[*pos as int]);
    let kind = match buf[*pos] {
        0 => InputKind::Content,
        1 => InputKind::Absent,
        _ => {
            return None;
        },
    };
    *pos = *pos + 1;
    assert(b2.drop_first() =~= buf@.skip(*pos as int));
    Some(InputEntry { logical, absolute, kind })
}

spec fn models(list: Seq<InputEntry>) -> Seq<InputModel> {
    Seq::new(list.len(), |i: int| list[i]@)
}

proof fn lemma_take_inputs_prefix(b: Seq<u8>, k: nat, n: nat)
    requires
        k <= n,
        take_inputs(b, k) is None,
    ensures
        take_inputs(b, n) is None,
    decreases n,
{
    if k < n {
        lemma_take_inputs_prefix(b, k, (n - 1) as nat);
    }
}

proof fn lemma_take_texts_prefix(b: Seq<u8>, k: nat, n: nat)
    requires
        k <= n,
        take_texts(b, k) is None,
    ensures
        take_texts(b, n) is None,
    decreases n,
{
    if k < n {
        lemma_take_texts_prefix(b, k, (n - 1) as nat);
    }
}

fn get_inputs(buf: &[u8], pos: &mut usize, n: u32) -> (r: Option<Vec<InputEntry>>)
    requires
        *old(pos) <= buf@.len(),
    ensures
        *final(pos) <= buf@.len(),
        match take_inputs(buf@.skip(*old(pos) as int), n as nat) {
            Some((list, rest)) => r matches Some(v) && models(v@) == list && buf@.skip(
                *final(pos) as int,
            ) == rest,
            None => r is None,
        },
{
    let ghost b = buf@.skip(*pos as int);
    let mut list: Vec<InputEntry> = Vec::new();
    let mut i: u32 = 0;
    assert(models(list@) =~= Seq::<InputModel>::empty());
    while i < n
        invariant
            i <= n,
            *pos <= buf@.len(),
            b == buf@.skip(*old(pos) as int),
            take_inputs(b, i as nat) == Some((models(list@), buf@.skip(*pos as int))),
        decreases n - i,
    {
        let ghost before = list@;
        match get_input(buf, pos) {
            Some(e) => {
                list.push(e);
                assert(models(list@) =~= models(before).push(e@));
            },
            None => {
                proof {
                    lemma_take_inputs_prefix(b, (i + 1) as nat, n as nat);
                }
                return None;
            },
        }
        i = i + 1;
    }
    Some(list)
}

fn get_strs(buf: &[u8], pos: &mut usize, n: u32) -> (r: Option<Vec<String>>)
    requires
        *old(pos) <= buf@.len(),
    ensures
        *final(pos) <= buf@.len(),
        match take_texts(buf@.skip(*old(pos) as int), n as nat) {
            Some((list, rest)) => r matches Some(v) && texts(v@) == list && buf@.skip(
                *final(pos) as int,
            ) == rest,
            None => r is None,
        },
{
    let ghost b = buf@.skip(*pos as int);
    let mut list: Vec<String> = Vec::new();
    let mut i: u32 = 0;
    assert(texts(list@) =~= Seq::<Seq<char>>::empty());
    while i < n
        invariant
            i <= n,
            *pos <= buf@.len(),
            b == buf@.skip(*old(pos) as int),
            take_texts(b, i as nat) == Some((texts(list@), buf@.skip(*pos as int))),
        decreases n - i,
    {
        let ghost before = list@;
        match get_str(buf, pos) {
            Some(s) => {
                list.push(s);
                assert(texts(list@) =~= texts(before).push(s@));
            },
            None => {
                proof {
                    lemma_take_texts_prefix(b, (i + 1) as nat, n as nat);
                }
                return None;
            },
        }
        i = i + 1;
    }
    Some(list)
}

fn parse_manifest(buf: &[u8]) -> (r: Option<InputManifest>)
    ensures
        match parse(buf@) {
            Some(m) => r matches Some(v) && v@ == m,
            None => r is None,
        },
{
    if buf.len() == 0 {
        return None;
    }
    let cacheable = buf[0] != 0;
    let mut pos: usize = 1;
    assert(buf@.skip(1) =~= buf@.drop_first());
    let n_inputs: u32 = match get_u32(buf, &mut pos) {
        Some(n) => n,
        None => {
            return None;
        },
    };
    let inputs = match get_inputs(buf, &mut pos, n_inputs) {
        Some(inputs) => inputs,
        None => {
            return None;
        },
    };
    let n_cmds: u32 = match get_u32(buf, &mut pos) {
        Some(n) => n,
        None => {
            return None;
        },
    };
    let cmds = match get_strs(buf, &mut pos, n_cmds) {
        Some(cmds) => cmds,
        None => {
            return None;
        },
    };
    if pos != buf.len() {
        return None;
    }
    let m = InputManifest { inputs, cmds, cacheable };
    assert(m@.inputs =~= models(inputs@));
    Some(m)
}

/// The manifest that `buf` is a stored form of, if it is one: a short or
/// over-long buffer, text that is not UTF-8 and an unknown kind are refused.
pub fn decode_manifest(buf: &[u8]) -> (r: Option<InputManifest>)
    ensures
        match r {
            Some(m) => stores(buf@, m@),
            None => forall|m: ManifestModel| !stores(buf@, m),
        },
{
    proof {
        if parse(buf@) is Some {
            lemma_stored_parse(buf@);
        }
        assert forall|m: ManifestModel| parse(buf@) is None implies !stores(buf@, m) by {
            if stores(buf@, m) {
                lemma_parse_stored(buf@, m);
            }
        }
    }
    parse_manifest(buf)
}

/// Reading gives back what was written: the bytes of a manifest whose counts and
/// lengths fit their fields store that manifest and no other.
pub proof fn law_manifest_round_trip(m: ManifestModel, other: ManifestModel)
    requires
        manifest_fits(m),
    ensures
        stores(manifest_bytes(m), m),
        stores(manifest_bytes(m), other) ==> other == m,
{
    assert(manifest_bytes(m).drop_first() =~= body_bytes(m));
    lemma_parse_stored(manifest_bytes(m), m);
    if stores(manifest_bytes(m), other) {
        lemma_parse_stored(manifest_bytes(m), other);
    }
}

/// Bytes store at most one manifest.
pub proof fn law_stored_manifest_is_unique(b: Seq<u8>, m: ManifestModel, other: ManifestModel)
    requires
        stores(b, m),
        stores(b, other),
    ensures
        m == other,
{
    lemma_parse_stored(b, m);
    lemma_parse_stored(b, other);
}

/// A stored manifest with anything behind it stores no manifest.
pub proof fn law_trailing_bytes_are_refused(
    b: Seq<u8>,
    m: ManifestModel,
    junk: Seq<u8>,
    other: ManifestModel,
)
    requires
        stores(b, m),
        junk.len() > 0,
    ensures
        !stores(b + junk, other),
{
    if stores(b + junk, other) {
        lemma_parse_stored(b + junk, other);
        lemma_body_parse(m, junk);
        assert((b + junk).drop_first() =~= b.drop_first() + junk);
    }
}

/// A stored manifest that is cut short stores no manifest.
pub proof fn law_truncated_manifest_is_refused(
    b: Seq<u8>,
    m: ManifestModel,
    n: int,
    other: ManifestModel,
)
    requires
        stores(b, m),
        0 <= n < b.len(),
    ensures
        !stores(b.take(n), other),
{
    if stores(b.take(n), other) {
        law_trailing_bytes_are_refused(b.take(n), other, b.skip(n), m);
        assert(b.take(n) + b.skip(n) =~= b);
    }
}

/// A number is stored in four bytes, the lowest first.
pub proof fn law_numbers_are_stored_lowest_byte_first(n: nat)
    requires
        n <= u32::MAX,
    ensures
        u32_bytes(n).len() == 4,
        ({
            let b = u32_bytes(n);
            b[0] + 256 * b[1] + 65536 * b[2] + 16777216 * b[3] == n
        }),
{
    let b = u32_bytes(n);
    lemma_u32_parse(n, Seq::empty());
    assert(b + Seq::<u8>::empty() =~= b);
}

/// How a manifest is stored: one byte that tells whether it covers everything, the number of
/// its inputs, of each its logical path, its absolute path and one byte for its kind, then the
/// number of its commands and each of them; a text is the length of its bytes and the bytes.
pub proof fn law_manifests_are_stored_field_by_field(
    m: ManifestModel,
    e: InputModel,
    cmd: Seq<char>,
)
    ensures
        manifest_bytes(m) == seq![
            if m.cacheable {
                1u8
            } else {
                0u8
            },
        ] + u32_bytes(m.inputs.len()) + inputs_bytes(m.inputs) + u32_bytes(m.cmds.len())
            + texts_bytes(m.cmds),
        inputs_bytes(Seq::empty()).len() == 0,
        inputs_bytes(m.inputs.push(e)) == inputs_bytes(m.inputs) + u32_bytes(
            encode_utf8(e.logical).len(),
        ) + encode_utf8(e.logical) + u32_bytes(encode_utf8(e.absolute).len()) + encode_utf8(
            e.absolute,
        ) + seq![
            if e.kind is Content {
                0u8
            } else {
                1u8
            },
        ],
        texts_bytes(Seq::empty()).len() == 0,
        texts_bytes(m.cmds.push(cmd)) == texts_bytes(m.cmds) + u32_bytes(encode_utf8(cmd).len())
            + encode_utf8(cmd),
{
    assert(m.inputs.push(e).drop_last() =~= m.inputs);
    assert(m.cmds.push(cmd).drop_last() =~= m.cmds);
    assert(manifest_bytes(m) =~= seq![
        if m.cacheable {
            1u8
        } else {
            0u8
        },
    ] + u32_bytes(m.inputs.len()) + inputs_bytes(m.inputs) + u32_bytes(m.cmds.len()) + texts_bytes(
        m.cmds,
    ));
    assert(inputs_bytes(m.inputs.push(e)) =~= inputs_bytes(m.inputs) + u32_bytes(
        encode_utf8(e.logical).len(),
    ) + encode_utf8(e.logical) + u32_bytes(encode_utf8(e.absolute).len()) + encode_utf8(e.absolute)
        + seq![
        if e.kind is Content {
            0u8
        } else {
            1u8
        },
    ]);
    assert(texts_bytes(m.cmds.push(cmd)) =~= texts_bytes(m.cmds) + u32_bytes(
        encode_utf8(cmd).len(),
    ) + encode_utf8(cmd));
}

/// Whatever its first byte is, a stored manifest covers everything exactly where that is not
/// zero, and its other bytes say the rest.
pub proof fn law_any_first_byte_but_zero_is_taken(m: ManifestModel, first: u8)
    requires
        manifest_fits(m),
    ensures
        stores(
            seq![first] + manifest_bytes(m).drop_first(),
            ManifestModel { cacheable: first != 0, ..m },
        ),
{
    let b = seq![first] + manifest_bytes(m).drop_first();
    assert(manifest_bytes(m).drop_first() =~= body_bytes(m));
    assert(b.drop_first() =~= body_bytes(m));
}

} // verus!
