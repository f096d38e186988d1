//! The command line of an ordinary program.
//!
//! A program splits its command line into arguments by these rules. Spaces and
//! tabs outside quotes separate arguments. Before a quote, an even number of
//! backslashes stands for half of them and the quote opens or closes a quoted
//! part; an odd number stands for half of them and the quote itself. Other
//! backslashes stand for themselves.

use crate::text::{chars_of, join, joined, texts};
use vstd::prelude::*;

verus! {

/// `n` backslashes.
pub open spec fn slashes(n: nat) -> Seq<char> {
    Seq::new(n, |i: int| '\\')
}

/// Whether an argument can stand in a command line as it is.
pub open spec fn is_bare(arg: Seq<char>) -> bool {
    arg.len() > 0 && !arg.contains(' ') && !arg.contains('\t') && !arg.contains('"')
}

/// The quoted text of an argument so far, without the `.1` backslashes that it
/// ends in.
pub open spec fn escaped(arg: Seq<char>) -> (Seq<char>, nat)
    decreases arg.len(),
{
    if arg.len() == 0 {
        (Seq::empty(), 0)
    } else {
        let (out, n) = escaped(arg.drop_last());
        if arg.last() == '\\' {
            (out, n + 1)
        } else if arg.last() == '"' {
            ((out + slashes(2 * n + 1)).push('"'), 0)
        } else {
            ((out + slashes(n)).push(arg.last()), 0)
        }
    }
}

/// An argument as it stands in a command line.
pub open spec fn quoted(arg: Seq<char>) -> Seq<char> {
    if is_bare(arg) {
        arg
    } else {
        let (out, n) = escaped(arg);
        (seq!['"'] + out + slashes(2 * n)).push('"')
    }
}

/// The command line for a list of arguments.
pub open spec fn command_line(argv: Seq<Seq<char>>) -> Seq<char> {
    join(Seq::new(argv.len(), |i: int| quoted(argv[i])), " "@)
}

/// Adds `n` backslashes.
pub fn push_slashes(out: &mut String, n: usize)
    ensures
        final(out)@ == old(out)@ + slashes(n as nat),
{
    let mut i: usize = 0;
    assert(out@ =~= old(out)@ + slashes(0));
    while i < n
        invariant
            i <= n,
            out@ == old(out)@ + slashes(i as nat),
        decreases n - i,
    {
        out.push('\\');
        assert(out@ =~= old(out)@ + slashes((i + 1) as nat));
        i = i + 1;
    }
}

/// An argument as it stands in a command line.
pub fn quote_windows_arg(argument: &str) -> (r: String)
    ensures
        r@ == quoted(argument@),
{
    let chars = chars_of(argument);
    let mut bare = chars.len() > 0;
    let mut k: usize = 0;
    while k < chars.len()
        invariant
            k <= chars@.len(),
            chars@ == argument@,
            bare == (chars@.len() > 0 && forall|j: int|
                0 <= j < k ==> chars@[j] != ' ' && chars@[j] != '\t' && chars@[j] != '"'),
        decreases chars@.len() - k,
    {
        if chars[k] == ' ' || chars[k] == '\t' || chars[k] == '"' {
            bare = false;
        }
        k = k + 1;
    }
    proof {
        if bare {
            assert(is_bare(argument@));
        } else if chars@.len() > 0 {
            let j = choose|j: int|
                0 <= j < k && !(chars@[j] != ' ' && chars@[j] != '\t' && chars@[j] != '"');
            assert(argument@.contains(argument@[j]));
            assert(!is_bare(argument@));
        }
    }
    if bare {
        return argument.to_owned();
    }
    let mut r = String::new();
    r.push('"');
    let mut backslashes: usize = 0;
    let mut i: usize = 0;
    assert(r@ =~= seq!['"'] + escaped(argument@.take(0)).0);
    while i < chars.len()
        invariant
            i <= chars@.len(),
            chars@ == argument@,
            backslashes <= i,
            backslashes == escaped(argument@.take(i as int)).1,
            r@ == seq!['"'] + escaped(argument@.take(i as int)).0,
        decreases chars@.len() - i,
    {
        let c = chars[i];
        let ghost now = argument@.take(i + 1);
        let ghost out = escaped(argument@.take(i as int)).0;
        assert(now.drop_last() =~= argument@.take(i as int));
        assert(now.last() == c);
        if c == '\\' {
            backslashes = backslashes + 1;
        } else if c == '"' {
            push_slashes(&mut r, backslashes);
            push_slashes(&mut r, backslashes);
            r.push('\\');
            r.push('"');
            assert(r@ =~= seq!['"'] + (out + slashes((2 * backslashes + 1) as nat)).push('"'));
            backslashes = 0;
        } else {
            push_slashes(&mut r, backslashes);
            r.push(c);
            assert(r@ =~= seq!['"'] + (out + slashes(backslashes as nat)).push(c));
            backslashes = 0;
        }
        i = i + 1;
    }
    assert(argument@.take(i as int) =~= argument@);
    push_slashes(&mut r, backslashes);
    push_slashes(&mut r, backslashes);
    r.push('"');
    assert(r@ =~= quoted(argument@));
    r
}

/// The command line for a list of arguments.
pub fn quote_windows_argv(argv: &Vec<String>) -> (r: String)
    ensures
        r@ == command_line(texts(argv@)),
{
    let mut pieces: Vec<String> = Vec::new();
    let mut i: usize = 0;
    while i < argv.len()
        invariant
            i <= argv@.len(),
            pieces@.len() == i,
            forall|j: int| 0 <= j < i ==> (#[trigger] pieces@[j])@ == quoted(argv@[j]@),
        decreases argv@.len() - i,
    {
        pieces.push(quote_windows_arg(argv[i].as_str()));
        i = i + 1;
    }
    assert(texts(pieces@) =~= Seq::new(
        texts(argv@).len(),
        |j: int| quoted(texts(argv@)[j]),
    ));
    joined(&pieces, " ")
}

/// A command line split so far: the arguments that are complete, the one that is
/// being read without its last backslashes, whether it is inside quotes, and the
/// backslashes.
#[verifier::ext_equal]
pub struct Splitting {
    pub done: Seq<Seq<char>>,
    pub current: Option<Seq<char>>,
    pub inside: bool,
    pub slashes: nat,
}

impl Splitting {
    pub open spec fn start() -> Splitting {
        Splitting { done: Seq::empty(), current: None, inside: false, slashes: 0 }
    }

    pub open spec fn text(self) -> Seq<char> {
        match self.current {
            Some(text) => text,
            None => Seq::empty(),
        }
    }

    /// One more character of the command line.
    pub open spec fn next(self, c: char) -> Splitting {
        if c == '\\' {
            Splitting { current: Some(self.text()), slashes: self.slashes + 1, ..self }
        } else if c == '"' {
            let text = self.text() + slashes(self.slashes / 2);
            if self.slashes % 2 == 1 {
                Splitting { current: Some(text.push('"')), slashes: 0, ..self }
            } else {
                Splitting { current: Some(text), slashes: 0, inside: !self.inside, ..self }
            }
        } else if (c == ' ' || c == '\t') && !self.inside {
            Splitting { done: self.all(), current: None, slashes: 0, ..self }
        } else {
            Splitting {
                current: Some((self.text() + slashes(self.slashes)).push(c)),
                slashes: 0,
                ..self
            }
        }
    }

    /// The arguments when the command line ends here.
    pub open spec fn all(self) -> Seq<Seq<char>> {
        match self.current {
            Some(text) => self.done.push(text + slashes(self.slashes)),
            None => self.done,
        }
    }

    /// Further characters of the command line.
    pub open spec fn through(self, s: Seq<char>) -> Splitting
        decreases s.len(),
    {
        if s.len() == 0 {
            self
        } else {
            self.through(s.drop_last()).next(s.last())
        }
    }
}

/// The arguments that a program finds in a command line.
pub open spec fn split_command_line(line: Seq<char>) -> Seq<Seq<char>> {
    Splitting::start().through(line).all()
}

proof fn lemma_through_append(st: Splitting, a: Seq<char>, b: Seq<char>)
    ensures
        st.through(a + b) == st.through(a).through(b),
    decreases b.len(),
{
    if b.len() == 0 {
        assert(a + b =~= a);
    } else {
        lemma_through_append(st, a, b.drop_last());
        assert((a + b).drop_last() =~= a + b.drop_last());
        assert((a + b).last() == b.last());
    }
}

proof fn lemma_through_slashes(st: Splitting, n: nat)
    requires
        st.current is Some,
    ensures
        st.through(slashes(n)) == (Splitting { slashes: st.slashes + n, ..st }),
    decreases n,
{
    if n > 0 {
        lemma_through_slashes(st, (n - 1) as nat);
        assert(slashes(n).drop_last() =~= slashes((n - 1) as nat));
        assert(slashes(n).last() == '\\');
    } else {
        assert(slashes(n) =~= Seq::<char>::empty());
    }
}

proof fn lemma_through_one(st: Splitting, c: char)
    ensures
        st.through(seq![c]) == st.next(c),
{
    assert(seq![c].drop_last() =~= Seq::<char>::empty());
    assert(st.through(Seq::<char>::empty()) == st);
}

/// The characters of `arg` without the last `n`.
spec fn without_tail(arg: Seq<char>, n: nat) -> Seq<char> {
    arg.take(arg.len() - n)
}

proof fn lemma_escaped_counts(arg: Seq<char>)
    ensures
        escaped(arg).1 <= arg.len(),
        arg == without_tail(arg, escaped(arg).1) + slashes(escaped(arg).1),
    decreases arg.len(),
{
    if arg.len() > 0 {
        lemma_escaped_counts(arg.drop_last());
        let n = escaped(arg.drop_last()).1;
        if arg.last() == '\\' {
            assert(without_tail(arg, n + 1) =~= without_tail(arg.drop_last(), n));
            assert(slashes(n + 1) =~= slashes(n).push('\\'));
            assert(arg =~= arg.drop_last().push('\\'));
            assert(arg =~= without_tail(arg, n + 1) + slashes(n + 1));
        } else {
            assert(slashes(0) =~= Seq::<char>::empty());
            assert(arg =~= without_tail(arg, 0) + slashes(0));
        }
    } else {
        assert(arg =~= without_tail(arg, 0) + slashes(0));
    }
}

/// Inside quotes, the escaped text of an argument is read as that argument.
proof fn lemma_read_escaped(st: Splitting, arg: Seq<char>)
    requires
        st.current == Some(Seq::<char>::empty()),
        st.inside,
        st.slashes == 0,
    ensures
        st.through(escaped(arg).0) == (Splitting {
            current: Some(without_tail(arg, escaped(arg).1)),
            ..st
        }),
    decreases arg.len(),
{
    if arg.len() == 0 {
        assert(without_tail(arg, 0) =~= Seq::<char>::empty());
        assert(escaped(arg).0 =~= Seq::<char>::empty());
    } else {
        let init = arg.drop_last();
        let c = arg.last();
        lemma_read_escaped(st, init);
        lemma_escaped_counts(init);
        let (out, n) = escaped(init);
        let read = st.through(out);
        assert(init =~= without_tail(init, n) + slashes(n));
        if c == '\\' {
            assert(without_tail(arg, n + 1) =~= without_tail(init, n));
        } else if c == '"' {
            lemma_through_append(st, out, slashes(2 * n + 1));
            lemma_through_slashes(read, 2 * n + 1);
            let body = out + slashes(2 * n + 1);
            let after = st.through(body);
            assert(body.push('"').drop_last() =~= body);
            assert((2 * n + 1) / 2 == n && (2 * n + 1) % 2 == 1);
            assert(st.through(body.push('"')) == after.next('"'));
            assert((without_tail(init, n) + slashes(n)).push('"') =~= without_tail(arg, 0));
        } else {
            lemma_through_append(st, out, slashes(n));
            lemma_through_slashes(read, n);
            let body = out + slashes(n);
            assert(body.push(c).drop_last() =~= body);
            assert(st.through(body.push(c)) == st.through(body).next(c));
            assert((without_tail(init, n) + slashes(n)).push(c) =~= without_tail(arg, 0));
        }
    }
}

/// A bare argument is read as it stands.
proof fn lemma_read_bare(st: Splitting, arg: Seq<char>)
    requires
        st.current is None,
        !st.inside,
        st.slashes == 0,
        arg.len() > 0,
        forall|i: int| 0 <= i < arg.len() ==> arg[i] != ' ' && arg[i] != '\t' && arg[i] != '"',
    ensures
        ({
            let read = st.through(arg);
            &&& read.done == st.done
            &&& !read.inside
            &&& read.current is Some
            &&& read.text() + slashes(read.slashes) == arg
        }),
    decreases arg.len(),
{
    let init = arg.drop_last();
    let c = arg.last();
    if init.len() == 0 {
        assert(st.through(init) == st);
        assert(slashes(0) =~= Seq::<char>::empty());
        if c == '\\' {
            assert(Seq::<char>::empty() + slashes(1) =~= arg);
        } else {
            assert((Seq::<char>::empty() + slashes(0)).push(c) + slashes(0) =~= arg);
        }
    } else {
        lemma_read_bare(st, init);
        let before = st.through(init);
        assert(before.text() + slashes(before.slashes) == init);
        assert(slashes(0) =~= Seq::<char>::empty());
        if c == '\\' {
            assert(slashes(before.slashes + 1) =~= slashes(before.slashes).push('\\'));
            assert(before.text() + slashes(before.slashes + 1) =~= init.push('\\'));
        } else {
            assert((before.text() + slashes(before.slashes)).push(c) + slashes(0) =~= init.push(c));
        }
        assert(init.push(c) =~= arg);
    }
}

/// What an argument leaves in the command line is read as that argument.
proof fn lemma_read_quoted(st: Splitting, arg: Seq<char>)
    requires
        st.current is None,
        !st.inside,
        st.slashes == 0,
    ensures
        ({
            let read = st.through(quoted(arg));
            &&& read.done == st.done
            &&& !read.inside
            &&& read.current is Some
            &&& read.text() + slashes(read.slashes) == arg
        }),
{
    if is_bare(arg) {
        assert forall|i: int| 0 <= i < arg.len() implies arg[i] != ' ' && arg[i] != '\t' && arg[i]
            != '"' by {
            assert(arg.contains(arg[i]));
        }
        lemma_read_bare(st, arg);
    } else {
        let (out, n) = escaped(arg);
        lemma_through_one(st, '"');
        let opened = st.next('"');
        assert(slashes(0) =~= Seq::<char>::empty());
        assert(opened.text() =~= Seq::<char>::empty());
        lemma_read_escaped(opened, arg);
        lemma_escaped_counts(arg);
        lemma_through_append(st, seq!['"'], out);
        lemma_through_append(st, seq!['"'] + out, slashes(2 * n));
        let read = opened.through(out);
        lemma_through_slashes(read, 2 * n);
        let body = seq!['"'] + out + slashes(2 * n);
        assert(body.push('"').drop_last() =~= body);
        assert(st.through(body.push('"')) == st.through(body).next('"'));
        assert((2 * n) / 2 == n && (2 * n) % 2 == 0);
        assert(without_tail(arg, n) + slashes(n) + slashes(0) =~= arg);
    }
}

/// Arguments reach the program as they were given: splitting the command line
/// that was made for a list of arguments gives back the list.
pub proof fn law_arguments_survive_quoting(argv: Seq<Seq<char>>)
    ensures
        split_command_line(command_line(argv)) == argv,
{
    reveal_strlit(" ");
    assert(" "@ =~= seq![' ']);
    let pieces = Seq::new(argv.len(), |i: int| quoted(argv[i]));
    lemma_read_line(argv, pieces);
}

proof fn lemma_read_line(argv: Seq<Seq<char>>, pieces: Seq<Seq<char>>)
    requires
        pieces.len() == argv.len(),
        forall|i: int| 0 <= i < argv.len() ==> #[trigger] pieces[i] == quoted(argv[i]),
    ensures
        ({
            let read = Splitting::start().through(join(pieces, seq![' ']));
            &&& read.all() == argv
            &&& !read.inside
            &&& argv.len() > 0 ==> read.current is Some
        }),
    decreases argv.len(),
{
    let start = Splitting::start();
    if argv.len() == 0 {
        assert(start.all() =~= argv);
    } else if argv.len() == 1 {
        lemma_read_quoted(start, argv[0]);
        let read = start.through(pieces[0]);
        assert(read.all() =~= argv);
    } else {
        let init = pieces.drop_last();
        assert forall|i: int| 0 <= i < argv.drop_last().len() implies #[trigger] init[i] == quoted(
            argv.drop_last()[i],
        ) by {
            assert(init[i] == pieces[i]);
        }
        lemma_read_line(argv.drop_last(), init);
        let head = join(init, seq![' ']);
        let before = start.through(head);
        lemma_through_append(start, head, seq![' ']);
        lemma_through_one(before, ' ');
        let clean = before.next(' ');
        lemma_through_append(start, head + seq![' '], pieces.last());
        assert(pieces[argv.len() - 1] == quoted(argv[argv.len() - 1]));
        lemma_read_quoted(clean, argv.last());
        let read = clean.through(pieces.last());
        assert(argv.drop_last().push(argv.last()) =~= argv);
        assert(read.all() =~= argv);
    }
}

/// An argument is written as it is exactly where it is not empty and holds no space, no tab and
/// no quote; any other stands between quotes. Arguments are parted by one space.
pub proof fn law_plain_arguments_are_not_quoted(arg: Seq<char>, argv: Seq<Seq<char>>)
    ensures
        arg.len() > 0 && (forall|i: int|
            0 <= i < arg.len() ==> #[trigger] arg[i] != ' ' && arg[i] != '\t' && arg[i] != '"')
            ==> quoted(arg) == arg,
        arg.len() == 0 || (exists|i: int|
            0 <= i < arg.len() && (#[trigger] arg[i] == ' ' || arg[i] == '\t' || arg[i] == '"'))
            ==> quoted(arg).len() >= 2 && quoted(arg)[0] == '"' && quoted(arg).last() == '"',
        command_line(seq![arg]) == quoted(arg),
        argv.len() > 0 ==> command_line(argv.push(arg)) == command_line(argv) + " "@ + quoted(arg),
{
    if arg.contains(' ') {
        assert(arg[arg.index_of(' ')] == ' ');
    }
    if arg.contains('\t') {
        assert(arg[arg.index_of('\t')] == '\t');
    }
    if arg.contains('"') {
        assert(arg[arg.index_of('"')] == '"');
    }
    if exists|i: int|
        0 <= i < arg.len() && (#[trigger] arg[i] == ' ' || arg[i] == '\t' || arg[i] == '"') {
        let i = choose|i: int|
            0 <= i < arg.len() && (#[trigger] arg[i] == ' ' || arg[i] == '\t' || arg[i] == '"');
        assert(arg.contains(arg[i]));
    }
    let one = Seq::new(seq![arg].len(), |i: int| quoted(seq![arg][i]));
    assert(one[0] == quoted(arg));
    let pieces = Seq::new(argv.len(), |i: int| quoted(argv[i]));
    let more = Seq::new(argv.push(arg).len(), |i: int| quoted(argv.push(arg)[i]));
    assert(more.drop_last() =~= pieces);
    assert(more.last() == quoted(arg));
}

} // verus!
