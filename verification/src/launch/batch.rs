//! The command line that runs a batch file.
//!
//! `cmd.exe` reads a batch file's arguments by rules of its own, so they are
//! quoted and escaped for it.

use crate::failure::{Failure, FailureKind};
use crate::launch::quoting::{push_slashes, slashes};
use crate::text::{
    chars_of, has_char, is_ascii_digit, is_ascii_letter, is_control_char, same_text, starts_with,
    string_of, texts,
};
use crate::utf16::{char_units, utf16_len, utf16_units};
use vstd::prelude::*;

verus! {

/// The ASCII characters beside letters and digits that need no quotes.
pub open spec fn needs_no_quotes(c: char) -> bool {
    ||| is_ascii_letter(c)
    ||| is_ascii_digit(c)
    ||| c == '#' || c == '$' || c == '*' || c == '+' || c == '-' || c == '.' || c == '/' || c == ':'
    ||| c == '?' || c == '@' || c == '\\' || c == '_'
}

/// Whether a character makes an argument stand in quotes.
pub open spec fn wants_quotes(c: char) -> bool {
    (c <= '\u{7f}' && !needs_no_quotes(c)) || is_control_char(c)
}

/// Whether an argument of a batch file stands in quotes.
pub open spec fn is_quoted_arg(arg: Seq<char>) -> bool {
    ||| arg.len() == 0
    ||| arg.last() == '\\'
    ||| exists|i: int| 0 <= i < arg.len() && wants_quotes(#[trigger] arg[i])
}

/// An argument with its quotes doubled behind doubled backslashes and its percent
/// signs disarmed, and the number of backslashes that it ends in.
pub open spec fn disarmed(arg: Seq<char>) -> (Seq<char>, nat)
    decreases arg.len(),
{
    if arg.len() == 0 {
        (Seq::empty(), 0)
    } else {
        let (out, n) = disarmed(arg.drop_last());
        let c = arg.last();
        if c == '\\' {
            (out.push(c), n + 1)
        } else if c == '"' {
            ((out + slashes(n)).push('"').push(c), 0)
        } else if c == '%' {
            ((out + "%%cd:~,"@).push(c), 0)
        } else {
            (out.push(c), 0)
        }
    }
}

/// An argument as it stands in the command line of a batch file.
pub open spec fn batch_arg(arg: Seq<char>) -> Seq<char> {
    let (out, n) = disarmed(arg);
    if is_quoted_arg(arg) {
        (seq!['"'] + out + slashes(n)).push('"')
    } else {
        out
    }
}

/// Whether an argument holds what no batch file can be given.
pub open spec fn is_refused_arg(arg: Seq<char>) -> bool {
    arg.contains('\0') || arg.contains('\r') || arg.contains('\n')
}

/// The arguments of a batch file, each behind a space.
pub open spec fn batch_args(args: Seq<Seq<char>>) -> Seq<char>
    decreases args.len(),
{
    if args.len() == 0 {
        Seq::empty()
    } else {
        batch_args(args.drop_last()).push(' ') + batch_arg(args.last())
    }
}

/// The command line that runs a batch file, or why there is none.
pub open spec fn batch_line(script: Seq<char>, args: Seq<Seq<char>>) -> Result<
    Seq<char>,
    (FailureKind, Seq<char>),
> {
    if "\\\\?\\"@.is_prefix_of(script) {
        Err((FailureKind::InvalidInput, "cmd.exe does not support verbatim batch paths"@))
    } else if script.contains('"') || (script.len() > 0 && script.last() == '\\') {
        Err(
            (
                FailureKind::InvalidInput,
                "Windows batch paths must not contain quotes or end with backslash"@,
            ),
        )
    } else if exists|i: int| 0 <= i < args.len() && is_refused_arg(#[trigger] args[i]) {
        Err((FailureKind::InvalidInput, "batch file arguments must not contain NUL, CR, or LF"@))
    } else {
        Ok(
            ("cmd.exe /e:ON /v:OFF /d /c \"\""@ + script).push('"') + batch_args(args).push(
                '"',
            ),
        )
    }
}

fn needs_quotes(c: char) -> (r: bool)
    ensures
        r == wants_quotes(c),
{
    let plain = ('A' <= c && c <= 'Z') || ('a' <= c && c <= 'z') || ('0' <= c && c <= '9') || c
        == '#' || c == '$' || c == '*' || c == '+' || c == '-' || c == '.' || c == '/' || c == ':'
        || c == '?' || c == '@' || c == '\\' || c == '_';
    let control = c <= '\u{1f}' || ('\u{7f}' <= c && c <= '\u{9f}');
    (c <= '\u{7f}' && !plain) || control
}

fn is_refused(arg: &str) -> (r: bool)
    ensures
        r == is_refused_arg(arg@),
{
    has_char(arg, '\0') || has_char(arg, '\r') || has_char(arg, '\n')
}

fn append_batch_argument(line: &mut String, argument: &str)
    ensures
        final(line)@ == old(line)@ + batch_arg(argument@),
{
    let chars = chars_of(argument);
    let mut quote = chars.len() == 0 || chars[chars.len() - 1] == '\\';
    let mut k: usize = 0;
    while k < chars.len()
        invariant
            k <= chars@.len(),
            chars@ == argument@,
            quote == (chars@.len() == 0 || chars@.last() == '\\' || exists|i: int|
                0 <= i < k && wants_quotes(#[trigger] chars@[i])),
        decreases chars@.len() - k,
    {
        if needs_quotes(chars[k]) {
            quote = true;
        }
        k = k + 1;
    }
    assert(quote == is_quoted_arg(argument@));
    if quote {
        line.push('"');
    }
    let ghost head = line@;
    let mut backslashes: usize = 0;
    let mut i: usize = 0;
    assert(line@ =~= head + disarmed(argument@.take(0)).0);
    while i < chars.len()
        invariant
            i <= chars@.len(),
            chars@ == argument@,
            backslashes <= i,
            backslashes == disarmed(argument@.take(i as int)).1,
            line@ == head + disarmed(argument@.take(i as int)).0,
        decreases chars@.len() - i,
    {
        let c = chars[i];
        let ghost now = argument@.take(i + 1);
        assert(now.drop_last() =~= argument@.take(i as int));
        assert(now.last() == c);
        if c == '\\' {
            backslashes = backslashes + 1;
        } else {
            if c == '"' {
                push_slashes(line, backslashes);
                line.push('"');
            } else if c == '%' {
                line.append("%%cd:~,");
            }
            backslashes = 0;
        }
        line.push(c);
        assert(line@ =~= head + disarmed(now).0);
        i = i + 1;
    }
    assert(argument@.take(i as int) =~= argument@);
    if quote {
        push_slashes(line, backslashes);
        line.push('"');
    }
    assert(line@ =~= old(line)@ + batch_arg(argument@));
}

/// The command line that runs the batch file `script`.
pub fn make_batch_command_line(script: &str, args: &Vec<String>) -> (r: Result<String, Failure>)
    ensures
        match batch_line(script@, texts(args@)) {
            Ok(line) => r matches Ok(s) && s@ == line,
            Err(problem) => r matches Err(f) && f@ == problem,
        },
{
    if starts_with(script, "\\\\?\\") {
        return Err(
            Failure::new(
                FailureKind::InvalidInput,
                "cmd.exe does not support verbatim batch paths",
            ),
        );
    }
    let path = chars_of(script);
    if has_char(script, '"') || (path.len() > 0 && path[path.len() - 1] == '\\') {
        return Err(
            Failure::new(
                FailureKind::InvalidInput,
                "Windows batch paths must not contain quotes or end with backslash",
            ),
        );
    }
    let ghost list = texts(args@);
    let mut line = "cmd.exe /e:ON /v:OFF /d /c \"\"".to_owned();
    line.append(script);
    line.push('"');
    let ghost head = line@;
    let mut i: usize = 0;
    assert(list.take(0) =~= Seq::<Seq<char>>::empty());
    assert(line@ =~= head + batch_args(list.take(0)));
    while i < args.len()
        invariant
            i <= args@.len(),
            list == texts(args@),
            forall|j: int| 0 <= j < i ==> !is_refused_arg(#[trigger] list[j]),
            line@ == head + batch_args(list.take(i as int)),
            !"\\\\?\\"@.is_prefix_of(script@),
            !(script@.contains('"') || (script@.len() > 0 && script@.last() == '\\')),
        decreases args@.len() - i,
    {
        let ghost now = list.take(i + 1);
        assert(now.drop_last() =~= list.take(i as int));
        assert(list[i as int] == args@[i as int]@);
        if is_refused(args[i].as_str()) {
            return Err(
                Failure::new(
                    FailureKind::InvalidInput,
                    "batch file arguments must not contain NUL, CR, or LF",
                ),
            );
        }
        line.push(' ');
        append_batch_argument(&mut line, args[i].as_str());
        assert(line@ =~= head + batch_args(now));
        i = i + 1;
    }
    assert(list.take(i as int) =~= list);
    line.push('"');
    assert(line@ =~= head + batch_args(list).push('"'));
    Ok(line)
}

/// Whether a character is one code unit wide in UTF-16.
pub open spec fn is_narrow(c: char) -> bool {
    (c as u32) < 0x10000
}

/// The ordinary form of a verbatim path that is short enough for one.
pub open spec fn plain_form(path: Seq<char>) -> Option<Seq<char>> {
    if utf16_units(path).len() + 1 > 260 {
        None
    } else if path.len() >= 7 && path.take(4) == "\\\\?\\"@ && is_narrow(path[4]) && path[5] == ':'
        && path[6] == '\\' {
        Some(path.skip(4))
    } else if path.len() >= 8 && path.take(8) == "\\\\?\\UNC\\"@ {
        Some("\\\\"@ + path.skip(8))
    } else {
        None
    }
}

/// The ordinary form of the path of a batch file. `None` leaves the path as it
/// is; another form is used only if the operating system reads it as the same
/// path (see [`confirm_plain_path`]).
pub fn plain_batch_path(path: &str) -> (r: Option<String>)
    ensures
        match plain_form(path@) {
            Some(p) => r matches Some(s) && s@ == p,
            None => r is None,
        },
{
    if utf16_len(path) > 259 {
        return None;
    }
    let chars = chars_of(path);
    if chars.len() >= 7 {
        let head = string_of(&chars, 0, 4);
        assert(head@ =~= path@.take(4));
        if same_text(head.as_str(), "\\\\?\\") && (chars[4] as u32) < 0x10000 && chars[5] == ':'
            && chars[6] == '\\' {
            let rest = string_of(&chars, 4, chars.len());
            assert(rest@ =~= path@.skip(4));
            return Some(rest);
        }
    }
    if chars.len() >= 8 {
        let head = string_of(&chars, 0, 8);
        assert(head@ =~= path@.take(8));
        if same_text(head.as_str(), "\\\\?\\UNC\\") {
            let rest = string_of(&chars, 8, chars.len());
            assert(rest@ =~= path@.skip(8));
            let mut r = "\\\\".to_owned();
            r.append(rest.as_str());
            return Some(r);
        }
    }
    None
}

/// Accepts the ordinary form `candidate` of a path if the operating system
/// expands it to itself.
pub fn confirm_plain_path(candidate: &str, expanded: &str) -> (r: Result<String, Failure>)
    ensures
        match r {
            Ok(s) => candidate@ == expanded@ && s@ == candidate@,
            Err(f) => candidate@ != expanded@ && f@ == (
                FailureKind::InvalidInput,
                "batch path cannot be safely converted from verbatim form"@,
            ),
        },
{
    if same_text(candidate, expanded) {
        Ok(candidate.to_owned())
    } else {
        Err(
            Failure::new(
                FailureKind::InvalidInput,
                "batch path cannot be safely converted from verbatim form",
            ),
        )
    }
}

/// How many quotes a text holds.
pub open spec fn quote_count(s: Seq<char>) -> nat
    decreases s.len(),
{
    if s.len() == 0 {
        0
    } else {
        quote_count(s.drop_last()) + if s.last() == '"' {
            1nat
        } else {
            0nat
        }
    }
}

proof fn lemma_quote_count_concat(a: Seq<char>, b: Seq<char>)
    ensures
        quote_count(a + b) == quote_count(a) + quote_count(b),
    decreases b.len(),
{
    if b.len() == 0 {
        assert(a + b =~= a);
    } else {
        lemma_quote_count_concat(a, b.drop_last());
        assert((a + b).drop_last() =~= a + b.drop_last());
        assert((a + b).last() == b.last());
    }
}

proof fn lemma_quote_count_push(a: Seq<char>, c: char)
    ensures
        quote_count(a.push(c)) == quote_count(a) + if c == '"' {
            1nat
        } else {
            0nat
        },
{
    assert(a.push(c).drop_last() =~= a);
}

proof fn lemma_no_quotes(s: Seq<char>)
    requires
        !s.contains('"'),
    ensures
        quote_count(s) == 0,
    decreases s.len(),
{
    if s.len() > 0 {
        assert forall|i: int| 0 <= i < s.drop_last().len() implies s.drop_last()[i] != '"' by {
            assert(s.contains(s[i]));
        }
        lemma_no_quotes(s.drop_last());
        assert(s.contains(s.last()));
    }
}

proof fn lemma_disarmed_quotes(arg: Seq<char>)
    ensures
        quote_count(disarmed(arg).0) % 2 == 0,
        !arg.contains('"') ==> quote_count(disarmed(arg).0) == 0,
    decreases arg.len(),
{
    if arg.len() > 0 {
        let init = arg.drop_last();
        lemma_disarmed_quotes(init);
        let (out, n) = disarmed(init);
        let c = arg.last();
        if arg.contains('"') {
        } else {
            assert(arg.contains(c));
            assert forall|i: int| 0 <= i < init.len() implies init[i] != '"' by {
                assert(arg.contains(arg[i]));
            }
        }
        if c == '"' {
            assert(slashes(n).contains('"') ==> false) by {
                if slashes(n).contains('"') {
                    let i = slashes(n).index_of('"');
                    assert(slashes(n)[i] == '"');
                }
            }
            lemma_no_quotes(slashes(n));
            lemma_quote_count_concat(out, slashes(n));
            lemma_quote_count_push(out + slashes(n), '"');
            lemma_quote_count_push((out + slashes(n)).push('"'), '"');
            assert(arg.contains(c));
        } else if c == '%' {
            reveal_strlit("%%cd:~,");
            let guard = "%%cd:~,"@;
            assert forall|i: int| 0 <= i < guard.len() implies guard[i] != '"' by {}
            lemma_no_quotes(guard);
            lemma_quote_count_concat(out, guard);
            lemma_quote_count_push(out + guard, c);
        } else {
            lemma_quote_count_push(out, c);
        }
    }
}

/// No argument leaves a quote open: what it leaves in the command line of a batch
/// file holds an even number of quotes.
pub proof fn law_batch_argument_closes_its_quotes(arg: Seq<char>)
    ensures
        quote_count(batch_arg(arg)) % 2 == 0,
{
    lemma_disarmed_quotes(arg);
    let (out, n) = disarmed(arg);
    if is_quoted_arg(arg) {
        let open = seq!['"'];
        assert(open.drop_last() =~= Seq::<char>::empty());
        assert(quote_count(open) == 1) by {
            assert(quote_count(Seq::<char>::empty()) == 0);
        }
        assert(slashes(n).contains('"') ==> false) by {
            if slashes(n).contains('"') {
                let i = slashes(n).index_of('"');
                assert(slashes(n)[i] == '"');
            }
        }
        lemma_no_quotes(slashes(n));
        lemma_quote_count_concat(open, out);
        lemma_quote_count_concat(open + out, slashes(n));
        lemma_quote_count_push(open + out + slashes(n), '"');
    }
}

/// How an argument of a batch file is written, one character after the other: a percent sign
/// so that no variable is read in its place, a quote doubled, and behind as many more
/// backslashes as stand before it; every other character as it is.
pub proof fn law_batch_arguments_keep_their_characters(front: Seq<char>, n: nat, c: char)
    requires
        front.len() > 0 ==> front.last() != '\\',
        c != '\\',
    ensures
        disarmed(front + slashes(n)).1 == n,
        disarmed(front + slashes(n)).0 == disarmed(front).0 + slashes(n),
        c != '"' && c != '%' ==> disarmed((front + slashes(n)).push(c)).0 == disarmed(front).0
            + slashes(n) + seq![c],
        c == '%' ==> disarmed((front + slashes(n)).push(c)).0 == disarmed(front).0 + slashes(n)
            + "%%cd:~,%"@,
        c == '"' ==> disarmed((front + slashes(n)).push(c)).0 == disarmed(front).0 + slashes(n)
            + slashes(n) + seq!['"', '"'],
{
    lemma_disarmed_slashes(front, n);
    let s = front + slashes(n);
    assert(s.push(c).drop_last() =~= s);
    let out = disarmed(s).0;
    assert(out.push(c) =~= out + seq![c]);
    if c == '%' {
        reveal_strlit("%%cd:~,");
        reveal_strlit("%%cd:~,%");
        assert((out + "%%cd:~,"@).push(c) =~= out + "%%cd:~,%"@);
    }
    if c == '"' {
        assert((out + slashes(n)).push('"').push(c) =~= out + slashes(n) + seq!['"', '"']);
    }
}

proof fn lemma_disarmed_slashes(front: Seq<char>, n: nat)
    requires
        front.len() > 0 ==> front.last() != '\\',
    ensures
        disarmed(front + slashes(n)) == (disarmed(front).0 + slashes(n), n),
    decreases n,
{
    let s = front + slashes(n);
    if n == 0 {
        assert(s =~= front);
        assert(disarmed(front).0 + slashes(0) =~= disarmed(front).0);
    } else {
        let m = (n - 1) as nat;
        lemma_disarmed_slashes(front, m);
        assert(s.drop_last() =~= front + slashes(m));
        assert(s.last() == '\\');
        assert((disarmed(front).0 + slashes(m)).push('\\') =~= disarmed(front).0 + slashes(n));
    }
}

/// Whether an argument holds nothing but letters, digits and the signs that `cmd.exe` gives
/// no meaning.
pub open spec fn is_harmless(arg: Seq<char>) -> bool {
    forall|i: int|
        0 <= i < arg.len() ==> {
            let c = #[trigger] arg[i];
            ||| 'a' <= c && c <= 'z'
            ||| 'A' <= c && c <= 'Z'
            ||| '0' <= c && c <= '9'
            ||| c > '\u{9f}'
            ||| c == '#' || c == '$' || c == '*' || c == '+' || c == '-' || c == '.' || c == '/'
            ||| c == ':' || c == '?' || c == '@' || c == '\\' || c == '_'
        }
}

/// An argument stands as it is where it is harmless and does not end in a backslash; any
/// other stands in quotes, with the backslashes at its end doubled.
pub proof fn law_harmless_arguments_stand_as_they_are(arg: Seq<char>, n: nat)
    requires
        n <= arg.len(),
        forall|i: int| arg.len() - n <= i < arg.len() ==> #[trigger] arg[i] == '\\',
        n < arg.len() ==> arg[arg.len() - n - 1] != '\\',
    ensures
        arg.len() > 0 && n == 0 && is_harmless(arg) ==> batch_arg(arg) == arg,
        arg.len() == 0 || n > 0 || !is_harmless(arg) ==> batch_arg(arg) == seq!['"'] + disarmed(
            arg,
        ).0 + slashes(n) + seq!['"'],
{
    assert(is_harmless(arg) <==> !(exists|i: int|
        0 <= i < arg.len() && wants_quotes(#[trigger] arg[i]))) by {
        assert forall|i: int| 0 <= i < arg.len() implies (wants_quotes(#[trigger] arg[i]) <==> !({
            let c = arg[i];
            ||| 'a' <= c && c <= 'z'
            ||| 'A' <= c && c <= 'Z'
            ||| '0' <= c && c <= '9'
            ||| c > '\u{9f}'
            ||| c == '#' || c == '$' || c == '*' || c == '+' || c == '-' || c == '.' || c == '/'
            ||| c == ':' || c == '?' || c == '@' || c == '\\' || c == '_'
        })) by {}
    }
    let front = arg.take(arg.len() - n);
    assert(arg =~= front + slashes(n));
    lemma_disarmed_slashes(front, n);
    if is_harmless(arg) {
        lemma_harmless_is_kept(arg);
    }
    assert((seq!['"'] + disarmed(arg).0 + slashes(n)).push('"') =~= seq!['"'] + disarmed(arg).0
        + slashes(n) + seq!['"']);
}

proof fn lemma_harmless_is_kept(arg: Seq<char>)
    requires
        is_harmless(arg),
    ensures
        disarmed(arg).0 == arg,
    decreases arg.len(),
{
    if arg.len() > 0 {
        let init = arg.drop_last();
        assert forall|i: int| 0 <= i < init.len() implies ({
            let c = #[trigger] init[i];
            ||| 'a' <= c && c <= 'z'
            ||| 'A' <= c && c <= 'Z'
            ||| '0' <= c && c <= '9'
            ||| c > '\u{9f}'
            ||| c == '#' || c == '$' || c == '*' || c == '+' || c == '-' || c == '.' || c == '/'
            ||| c == ':' || c == '?' || c == '@' || c == '\\' || c == '_'
        }) by {
            assert(init[i] == arg[i]);
        }
        lemma_harmless_is_kept(init);
        let c = arg[arg.len() - 1];
        assert(c != '"' && c != '%');
        assert(init.push(c) =~= arg);
    } else {
        assert(disarmed(arg).0 =~= arg);
    }
}

/// The command line of a batch file: `cmd.exe` with its switches, the path of the file in
/// quotes, each argument behind a space, all in one more pair of quotes. It is refused exactly
/// where the path is a verbatim one, holds a quote or ends in a backslash, or where an argument
/// holds a zero, a carriage return or a line feed.
pub proof fn law_batch_lines_hold_every_argument(
    script: Seq<char>,
    args: Seq<Seq<char>>,
    more: Seq<char>,
)
    ensures
        batch_args(Seq::empty()).len() == 0,
        batch_args(args.push(more)) == batch_args(args) + seq![' '] + batch_arg(more),
        batch_line(script, args) matches Ok(line) ==> line
            == "cmd.exe /e:ON /v:OFF /d /c \"\""@ + script + seq!['"'] + batch_args(args)
            + seq!['"'],
        batch_line(script, args) is Err <==> {
            ||| "\\\\?\\"@.is_prefix_of(script)
            ||| script.contains('"')
            ||| script.len() > 0 && script.last() == '\\'
            ||| exists|i: int|
                0 <= i < args.len() && ((#[trigger] args[i]).contains('\0') || args[i].contains('\r')
                    || args[i].contains('\n'))
        },
{
    assert(args.push(more).drop_last() =~= args);
    assert(batch_args(args).push(' ') + batch_arg(more) =~= batch_args(args) + seq![' ']
        + batch_arg(more));
    if let Ok(line) = batch_line(script, args) {
        assert(line =~= "cmd.exe /e:ON /v:OFF /d /c \"\""@ + script + seq!['"'] + batch_args(args)
            + seq!['"']);
    }
    if exists|i: int| 0 <= i < args.len() && is_refused_arg(#[trigger] args[i]) {
        let i = choose|i: int| 0 <= i < args.len() && is_refused_arg(#[trigger] args[i]);
        assert(args[i].contains('\0') || args[i].contains('\r') || args[i].contains('\n'));
    }
    if exists|i: int|
        0 <= i < args.len() && ((#[trigger] args[i]).contains('\0') || args[i].contains('\r')
            || args[i].contains('\n')) {
        let i = choose|i: int|
            0 <= i < args.len() && ((#[trigger] args[i]).contains('\0') || args[i].contains('\r')
                || args[i].contains('\n'));
        assert(is_refused_arg(args[i]));
    }
}

/// A verbatim path of a share, no longer than 259 UTF-16 units, has an ordinary form: the same
/// path without the verbatim prefix. A longer path, and one that is not verbatim, has none.
pub proof fn law_short_verbatim_shares_have_a_plain_form(path: Seq<char>, rest: Seq<char>)
    ensures
        utf16_units(path).len() > 259 ==> plain_form(path) is None,
        !"\\\\?\\"@.is_prefix_of(path) ==> plain_form(path) is None,
        ({
            let p = "\\\\?\\UNC\\"@ + rest;
            utf16_units(p).len() <= 259 ==> plain_form(p) == Some("\\\\"@ + rest)
        }),
{
    reveal_strlit("\\\\?\\");
    reveal_strlit("\\\\?\\UNC\\");
    let v = "\\\\?\\"@;
    let u = "\\\\?\\UNC\\"@;
    assert((u + rest).take(8) =~= u);
    assert((u + rest).skip(8) =~= rest);
    assert((u + rest)[5] == 'N');
    if path.len() >= 4 && path.take(4) == v {
        assert(v.is_prefix_of(path));
    }
    if path.len() >= 8 && path.take(8) == u {
        assert(path.take(4) =~= u.take(4));
        assert(u.take(4) =~= v);
        assert(v.is_prefix_of(path));
    }
}

/// A verbatim path that is no longer than 259 UTF-16 units, and that begins with a drive, one
/// unit wide, and a root, has an ordinary form: the same path without the verbatim prefix. One
/// that begins with neither a drive nor `UNC` has none.
pub proof fn law_short_verbatim_drives_have_a_plain_form(
    drive: char,
    colon: char,
    root: char,
    rest: Seq<char>,
)
    ensures
        ({
            let tail = seq![drive, colon, root] + rest;
            let p = "\\\\?\\"@ + tail;
            let short = utf16_units(p).len() <= 259;
            let plain = char_units(drive).len() == 1 && colon == ':' && root == '\\';
            &&& short && plain ==> plain_form(p) == Some(tail)
            &&& !plain && drive != 'U' ==> plain_form(p) is None
        }),
{
    reveal_strlit("\\\\?\\");
    reveal_strlit("\\\\?\\UNC\\");
    let v = "\\\\?\\"@;
    let u = "\\\\?\\UNC\\"@;
    let tail = seq![drive, colon, root] + rest;
    let p = v + tail;
    assert(p.take(4) =~= v);
    assert(p.skip(4) =~= tail);
    assert(p[4] == drive && p[5] == colon && p[6] == root);
    assert(u[4] == 'U');
    if p.len() >= 8 && p.take(8) == u {
        assert(p.take(8)[4] == drive);
    }
}

} // verus!
