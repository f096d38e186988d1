//! Why a lookup misses, stage by stage.

use crate::action_cache::manifest::{
    decode_manifest, stores, InputKind, InputManifest, InputModel, ManifestModel,
};
use crate::digest::{digest_of, digest_text};
use crate::fileserver::paths::opt_text;
use crate::text::{decimal, decimal_of, same_text};
use vstd::prelude::*;

verus! {

/// What reading an input gave.
pub enum InputRead {
    /// So many bytes, and their digest.
    Content { size: u64, digest: String },
    Missing,
    /// It failed, in this way.
    Failed(String),
}

/// What came of looking for the result.
pub enum ResultLookup {
    Found,
    Absent,
    /// The lookup failed: what is told of it.
    Failed(String),
    /// The inputs could not be hashed, in this way.
    Unhashed(String),
}

/// What came of looking for the manifest.
pub enum ManifestLookup {
    Found(Vec<u8>),
    Absent,
    /// The lookup failed: what is told of it.
    Failed(String),
}

/// The digest of an input, as it is kept with a result: that of its content, where it
/// has any.
pub fn input_digest(kind: InputKind, content: &Option<Vec<u8>>) -> (r: Option<String>)
    ensures
        match (kind, *content) {
            (InputKind::Content, Some(bytes)) => r matches Some(d) && d@ == digest_text(bytes@),
            _ => r is None,
        },
{
    match (kind, content) {
        (InputKind::Content, Some(bytes)) => Some(digest_of(bytes.as_slice())),
        _ => None,
    }
}

/// What reading an input gave whose content is `content`.
pub fn content_read(content: &Vec<u8>) -> (r: InputRead)
    ensures
        r matches InputRead::Content { size, digest } && size == content@.len() && digest@
            == digest_text(content@),
{
    InputRead::Content { size: content.len() as u64, digest: digest_of(content.as_slice()) }
}

/// Whether the content of an input is another one than was recorded, as far as its
/// digest was kept.
pub open spec fn was_edited(recorded: Option<Seq<char>>, digest: Seq<char>) -> bool {
    recorded is Some && recorded->0 != digest
}

/// What is told of an input that was read, and what has changed, if anything;
/// `recorded` is the digest that it had when the result was recorded.
pub open spec fn input_now(kind: InputKind, recorded: Option<Seq<char>>, read: InputRead) -> (
    Seq<char>,
    Seq<char>,
) {
    match (kind, read) {
        (InputKind::Content, InputRead::Content { size, digest }) => (
            "content("@ + decimal(size as nat) + " bytes)"@,
            if was_edited(recorded, digest@) {
                "  <-- CHANGED: content differs from what was recorded"@
            } else {
                ""@
            },
        ),
        (InputKind::Content, InputRead::Missing) => (
            "<missing>"@,
            "  <-- CHANGED: was content, now MISSING"@,
        ),
        (InputKind::Absent, InputRead::Content { .. }) => (
            "appeared"@,
            "  <-- CHANGED: was absent, now APPEARED"@,
        ),
        (InputKind::Absent, InputRead::Missing) => ("absent"@, ""@),
        (_, InputRead::Failed(e)) => ("<ioerr:"@ + e@ + ">"@, "  <-- IO ERROR"@),
    }
}

/// Whether something has changed about an input.
pub open spec fn has_changed(
    kind: InputKind,
    recorded: Option<Seq<char>>,
    read: InputRead,
) -> bool {
    match (kind, read) {
        (InputKind::Content, InputRead::Content { size: _, digest }) => was_edited(
            recorded,
            digest@,
        ),
        (InputKind::Absent, InputRead::Missing) => false,
        _ => true,
    }
}

pub open spec fn kind_text(kind: InputKind) -> Seq<char> {
    match kind {
        InputKind::Content => "Content"@,
        InputKind::Absent => "Absent"@,
    }
}

/// The line for one input.
pub open spec fn input_line(
    e: InputModel,
    recorded: Option<Seq<char>>,
    read: InputRead,
) -> Seq<char> {
    let (token, flag) = input_now(e.kind, recorded, read);
    "  ["@ + kind_text(e.kind) + "] "@ + e.absolute + " = "@ + token + flag + "\n"@
}

/// The lines for all inputs.
pub open spec fn input_lines(
    inputs: Seq<InputModel>,
    recorded: Seq<Option<Seq<char>>>,
    reads: Seq<InputRead>,
) -> Seq<char>
    decreases inputs.len(),
{
    if inputs.len() == 0 {
        Seq::empty()
    } else {
        input_lines(inputs.drop_last(), recorded, reads) + input_line(
            inputs.last(),
            recorded[inputs.len() - 1],
            reads[inputs.len() - 1],
        )
    }
}

/// How many inputs have changed.
pub open spec fn changed_count(
    inputs: Seq<InputModel>,
    recorded: Seq<Option<Seq<char>>>,
    reads: Seq<InputRead>,
) -> nat
    decreases inputs.len(),
{
    if inputs.len() == 0 {
        0
    } else {
        changed_count(inputs.drop_last(), recorded, reads) + if has_changed(
            inputs.last().kind,
            recorded[inputs.len() - 1],
            reads[inputs.len() - 1],
        ) {
            1nat
        } else {
            0nat
        }
    }
}

pub open spec fn head_line(m: ManifestModel) -> Seq<char> {
    "weak HIT: stored manifest has "@ + decimal(m.inputs.len()) + " inputs, cacheable="@ + (
    if m.cacheable {
        "true"@
    } else {
        "false"@
    }) + "\n"@
}

pub open spec fn end_line(changed: nat, found: ResultLookup) -> Seq<char> {
    match found {
        ResultLookup::Found => "=> strong HIT (resolve would hit)\n"@,
        ResultLookup::Absent => "=> strong MISS: "@ + decimal(changed)
            + " input(s) changed since record\n"@,
        ResultLookup::Failed(e) => "=> result lookup error: "@ + e@ + "\n"@,
        ResultLookup::Unhashed(e) => "=> manifest_hash IO error: "@ + e@ + " -> miss\n"@,
    }
}

/// What is told of a lookup whose manifest is `m`.
pub open spec fn explanation(
    m: ManifestModel,
    recorded: Seq<Option<Seq<char>>>,
    reads: Seq<InputRead>,
    found: ResultLookup,
) -> Seq<char> {
    if !m.cacheable {
        head_line(m) + "=> UNCACHEABLE manifest -> miss\n"@
    } else {
        head_line(m) + input_lines(m.inputs, recorded, reads) + end_line(
            changed_count(m.inputs, recorded, reads),
            found,
        )
    }
}

pub open spec fn opt_texts(list: Seq<Option<String>>) -> Seq<Option<Seq<char>>> {
    Seq::new(list.len(), |i: int| opt_text(list[i]))
}

fn differs(recorded: &Option<String>, digest: &str) -> (r: bool)
    ensures
        r == was_edited(opt_text(*recorded), digest@),
{
    match recorded {
        Some(d) => !same_text(d.as_str(), digest),
        None => false,
    }
}

fn append_input(
    out: &mut String,
    kind: InputKind,
    absolute: &str,
    recorded: &Option<String>,
    read: &InputRead,
) -> (r: bool)
    ensures
        r == has_changed(kind, opt_text(*recorded), *read),
        forall|e: InputModel|
            e.kind == kind && e.absolute == absolute@ ==> final(out)@ == old(out)@
                + #[trigger] input_line(e, opt_text(*recorded), *read),
{
    let mut line = "  [".to_owned();
    match kind {
        InputKind::Content => line.append("Content"),
        InputKind::Absent => line.append("Absent"),
    }
    line.append("] ");
    line.append(absolute);
    line.append(" = ");
    let (token, flag, changed): (String, &str, bool) = match (kind, read) {
        (InputKind::Content, InputRead::Content { size, digest }) => {
            let mut t = "content(".to_owned();
            t.append(decimal_of(*size).as_str());
            t.append(" bytes)");
            if differs(recorded, digest.as_str()) {
                (t, "  <-- CHANGED: content differs from what was recorded", true)
            } else {
                (t, "", false)
            }
        },
        (InputKind::Content, InputRead::Missing) => (
            "<missing>".to_owned(),
            "  <-- CHANGED: was content, now MISSING",
            true,
        ),
        (InputKind::Absent, InputRead::Content { .. }) => (
            "appeared".to_owned(),
            "  <-- CHANGED: was absent, now APPEARED",
            true,
        ),
        (InputKind::Absent, InputRead::Missing) => ("absent".to_owned(), "", false),
        (_, InputRead::Failed(e)) => {
            let mut t = "<ioerr:".to_owned();
            t.append(e.as_str());
            t.append(">");
            (t, "  <-- IO ERROR", true)
        },
    };
    line.append(token.as_str());
    line.append(flag);
    line.append("\n");
    out.append(line.as_str());
    changed
}

/// Tells why a lookup whose manifest is `manifest` misses: which of its inputs have
/// changed, if any, and whether there is a result for what they are now. `recorded`
/// holds the digest that each input had when the result was recorded, as far as it was
/// kept, and `reads` what reading each gave now.
pub fn explain_manifest(
    manifest: &InputManifest,
    recorded: &Vec<Option<String>>,
    reads: &Vec<InputRead>,
    found: &ResultLookup,
) -> (r: String)
    requires
        manifest.cacheable ==> reads@.len() == manifest.inputs@.len(),
        manifest.cacheable ==> recorded@.len() == manifest.inputs@.len(),
    ensures
        r@ == explanation(manifest@, opt_texts(recorded@), reads@, *found),
{
    let mut out = "weak HIT: stored manifest has ".to_owned();
    out.append(decimal_of(manifest.inputs.len() as u64).as_str());
    out.append(" inputs, cacheable=");
    if manifest.cacheable {
        out.append("true");
    } else {
        out.append("false");
    }
    out.append("\n");
    let ghost head = out@;
    assert(head =~= head_line(manifest@));
    if !manifest.cacheable {
        out.append("=> UNCACHEABLE manifest -> miss\n");
        return out;
    }
    let ghost inputs = manifest@.inputs;
    let ghost kept = opt_texts(recorded@);
    let mut changed: usize = 0;
    let mut i: usize = 0;
    assert(out@ =~= head + input_lines(inputs.take(0), kept, reads@));
    while i < manifest.inputs.len()
        invariant
            i <= manifest.inputs@.len(),
            inputs == manifest@.inputs,
            reads@.len() == manifest.inputs@.len(),
            recorded@.len() == manifest.inputs@.len(),
            kept == opt_texts(recorded@),
            changed <= i,
            changed == changed_count(inputs.take(i as int), kept, reads@),
            out@ == head + input_lines(inputs.take(i as int), kept, reads@),
        decreases manifest.inputs@.len() - i,
    {
        assert(inputs.take(i + 1).drop_last() =~= inputs.take(i as int));
        assert(inputs.take(i + 1).last() == manifest.inputs@[i as int]@);
        let ghost before = out@;
        let ghost line = input_line(inputs[i as int], kept[i as int], reads@[i as int]);
        if append_input(
            &mut out,
            manifest.inputs[i].kind,
            manifest.inputs[i].absolute.as_str(),
            &recorded[i],
            &reads[i],
        ) {
            changed = changed + 1;
        }
        assert(out@ == before + line);
        assert(out@ =~= head + input_lines(inputs.take(i + 1), kept, reads@));
        i = i + 1;
    }
    assert(inputs.take(i as int) =~= inputs);
    let mut end = String::new();
    match found {
        ResultLookup::Found => {
            end.append("=> strong HIT (resolve would hit)\n");
        },
        ResultLookup::Absent => {
            end.append("=> strong MISS: ");
            end.append(decimal_of(changed as u64).as_str());
            end.append(" input(s) changed since record\n");
        },
        ResultLookup::Failed(e) => {
            end.append("=> result lookup error: ");
            end.append(e.as_str());
            end.append("\n");
        },
        ResultLookup::Unhashed(e) => {
            end.append("=> manifest_hash IO error: ");
            end.append(e.as_str());
            end.append(" -> miss\n");
        },
    }
    assert(end@ =~= end_line(changed as nat, *found));
    out.append(end.as_str());
    out
}

/// An input whose content was edited is named: its line is marked, and it counts among
/// those that have changed.
pub proof fn law_edited_inputs_are_named(
    m: ManifestModel,
    recorded: Seq<Option<Seq<char>>>,
    reads: Seq<InputRead>,
    i: int,
)
    requires
        0 <= i < m.inputs.len(),
        m.inputs[i].kind is Content,
        reads[i] matches InputRead::Content { size, digest } && was_edited(recorded[i], digest@),
    ensures
        changed_count(m.inputs, recorded, reads) >= 1,
        input_line(m.inputs[i], recorded[i], reads[i]) == "  ["@ + "Content"@ + "] "@
            + m.inputs[i].absolute + " = "@ + input_now(
            InputKind::Content,
            recorded[i],
            reads[i],
        ).0 + "  <-- CHANGED: content differs from what was recorded"@ + "\n"@,
{
    lemma_changed_inputs_count(m.inputs, recorded, reads, i);
}

/// Where no input has changed, none is counted.
pub proof fn law_unchanged_inputs_do_not_count(
    inputs: Seq<InputModel>,
    recorded: Seq<Option<Seq<char>>>,
    reads: Seq<InputRead>,
)
    requires
        forall|i: int|
            0 <= i < inputs.len() ==> !has_changed(
                (#[trigger] inputs[i]).kind,
                recorded[i],
                reads[i],
            ),
    ensures
        changed_count(inputs, recorded, reads) == 0,
    decreases inputs.len(),
{
    if inputs.len() > 0 {
        let init = inputs.drop_last();
        assert forall|i: int| 0 <= i < init.len() implies !has_changed(
            (#[trigger] init[i]).kind,
            recorded[i],
            reads[i],
        ) by {
            assert(init[i] == inputs[i]);
        }
        law_unchanged_inputs_do_not_count(init, recorded, reads);
        assert(inputs[inputs.len() - 1] == inputs.last());
    }
}

proof fn lemma_changed_inputs_count(
    inputs: Seq<InputModel>,
    recorded: Seq<Option<Seq<char>>>,
    reads: Seq<InputRead>,
    i: int,
)
    requires
        0 <= i < inputs.len(),
        has_changed(inputs[i].kind, recorded[i], reads[i]),
    ensures
        changed_count(inputs, recorded, reads) >= 1,
    decreases inputs.len(),
{
    if i < inputs.len() - 1 {
        lemma_changed_inputs_count(inputs.drop_last(), recorded, reads, i);
    }
}

/// What to do to tell why a lookup misses.
pub enum ExplainStep {
    /// Tell this.
    Tell(String),
    /// Read the inputs of the manifest and look for the result.
    Inspect(InputManifest),
}

/// Begins to tell why a lookup misses.
pub fn explain_miss(stored: ManifestLookup) -> (r: ExplainStep)
    ensures
        match stored {
            ManifestLookup::Absent => r matches ExplainStep::Tell(t) && t@
                == "weak MISS: no manifest stored for this weak key"@,
            ManifestLookup::Failed(e) => r matches ExplainStep::Tell(t) && t@
                == "weak lookup error: "@ + e@,
            ManifestLookup::Found(b) => match r {
                ExplainStep::Inspect(m) => stores(b@, m@),
                ExplainStep::Tell(t) => {
                    &&& t@ == "manifest decode FAILED (corrupt)"@
                    &&& forall|m: ManifestModel| !stores(b@, m)
                },
            },
        },
{
    match stored {
        ManifestLookup::Absent => ExplainStep::Tell(
            "weak MISS: no manifest stored for this weak key".to_owned(),
        ),
        ManifestLookup::Failed(e) => {
            let mut t = "weak lookup error: ".to_owned();
            t.append(e.as_str());
            ExplainStep::Tell(t)
        },
        ManifestLookup::Found(b) => match decode_manifest(b.as_slice()) {
            Some(m) => ExplainStep::Inspect(m),
            None => ExplainStep::Tell("manifest decode FAILED (corrupt)".to_owned()),
        },
    }
}

/// Whether an input is another one than was recorded: its content was read and has another
/// digest than was kept, it was there and is missing, it was missing and is there, or it
/// cannot be read.
pub open spec fn is_another(kind: InputKind, recorded: Option<Seq<char>>, read: InputRead) -> bool {
    match read {
        InputRead::Failed(_) => true,
        InputRead::Missing => kind == InputKind::Content,
        InputRead::Content { size, digest } => kind == InputKind::Absent || (recorded matches Some(d)
            && d != digest@),
    }
}

/// Every input is counted that is another one than was recorded, and no other: one more
/// input adds one where it is another, and nothing where not.
pub proof fn law_changed_inputs_are_counted_one_by_one(
    inputs: Seq<InputModel>,
    input: InputModel,
    recorded: Seq<Option<Seq<char>>>,
    reads: Seq<InputRead>,
)
    ensures
        changed_count(Seq::empty(), recorded, reads) == 0,
        changed_count(inputs.push(input), recorded, reads) == changed_count(inputs, recorded, reads)
            + if is_another(input.kind, recorded[inputs.len() as int], reads[inputs.len() as int]) {
            1nat
        } else {
            0nat
        },
{
    assert(inputs.push(input).drop_last() =~= inputs);
}

/// What the line of an input says: its kind, its path, what was read of it now, and, where
/// it is another one than was recorded, what has become of it.
pub proof fn law_lines_tell_what_has_become_of_an_input(
    e: InputModel,
    recorded: Option<Seq<char>>,
    read: InputRead,
)
    ensures
        ({
            let line = input_line(e, recorded, read);
            let (head, flag) = match (e.kind, read) {
                (InputKind::Content, InputRead::Content { size, digest }) => (
                    "  ["@ + "Content"@ + "] "@ + e.absolute + " = "@ + ("content("@ + decimal(
                        size as nat,
                    ) + " bytes)"@),
                    if recorded is Some && recorded->0 != digest@ {
                        "  <-- CHANGED: content differs from what was recorded"@
                    } else {
                        ""@
                    },
                ),
                (InputKind::Content, InputRead::Missing) => (
                    "  ["@ + "Content"@ + "] "@ + e.absolute + " = "@ + "<missing>"@,
                    "  <-- CHANGED: was content, now MISSING"@,
                ),
                (InputKind::Absent, InputRead::Content { size, digest }) => (
                    "  ["@ + "Absent"@ + "] "@ + e.absolute + " = "@ + "appeared"@,
                    "  <-- CHANGED: was absent, now APPEARED"@,
                ),
                (InputKind::Absent, InputRead::Missing) => (
                    "  ["@ + "Absent"@ + "] "@ + e.absolute + " = "@ + "absent"@,
                    ""@,
                ),
                (InputKind::Content, InputRead::Failed(f)) => (
                    "  ["@ + "Content"@ + "] "@ + e.absolute + " = "@ + ("<ioerr:"@ + f@ + ">"@),
                    "  <-- IO ERROR"@,
                ),
                (InputKind::Absent, InputRead::Failed(f)) => (
                    "  ["@ + "Absent"@ + "] "@ + e.absolute + " = "@ + ("<ioerr:"@ + f@ + ">"@),
                    "  <-- IO ERROR"@,
                ),
            };
            line == head + flag + "\n"@
        }),
{
}

/// An explanation of a manifest that covers everything is its head, then the line of every
/// input in their order, then what came of looking for the result; of any other it ends
/// with the head.
pub proof fn law_explanations_go_through_every_input(
    m: ManifestModel,
    recorded: Seq<Option<Seq<char>>>,
    reads: Seq<InputRead>,
    found: ResultLookup,
)
    ensures
        m.cacheable ==> explanation(m, recorded, reads, found) == head_line(m) + Seq::new(
            m.inputs.len(),
            |i: int| input_line(m.inputs[i], recorded[i], reads[i]),
        ).flatten() + end_line(changed_count(m.inputs, recorded, reads), found),
        !m.cacheable ==> explanation(m, recorded, reads, found) == head_line(m)
            + "=> UNCACHEABLE manifest -> miss\n"@,
{
    lemma_lines_flat(m.inputs, recorded, reads);
}

proof fn lemma_lines_flat(
    inputs: Seq<InputModel>,
    recorded: Seq<Option<Seq<char>>>,
    reads: Seq<InputRead>,
)
    ensures
        input_lines(inputs, recorded, reads) == Seq::new(
            inputs.len(),
            |i: int| input_line(inputs[i], recorded[i], reads[i]),
        ).flatten(),
    decreases inputs.len(),
{
    let lines = Seq::new(inputs.len(), |i: int| input_line(inputs[i], recorded[i], reads[i]));
    lines.lemma_flatten_and_flatten_alt_are_equivalent();
    if inputs.len() > 0 {
        let init = inputs.drop_last();
        lemma_lines_flat(init, recorded, reads);
        let before = Seq::new(init.len(), |i: int| input_line(init[i], recorded[i], reads[i]));
        before.lemma_flatten_and_flatten_alt_are_equivalent();
        assert(lines.drop_last() =~= before);
    }
}

/// What an explanation ends with.
pub proof fn law_explanations_end_with_the_result(changed: nat, why: String)
    ensures
        end_line(changed, ResultLookup::Found) == "=> strong HIT (resolve would hit)\n"@,
        end_line(changed, ResultLookup::Absent) == "=> strong MISS: "@ + decimal(changed)
            + " input(s) changed since record\n"@,
        end_line(changed, ResultLookup::Failed(why)) == "=> result lookup error: "@ + why@ + "\n"@,
        end_line(changed, ResultLookup::Unhashed(why)) == "=> manifest_hash IO error: "@ + why@
            + " -> miss\n"@,
{
}

} // verus!
