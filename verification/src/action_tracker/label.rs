//! What an action is called.

use crate::action_tracker::{first_chars, truncate_chars, MAX_DISPLAY_CHARS};
use crate::command::Command;
use crate::filepath::{
    base_name, body_start, extension, file_name, file_name_of, has_drive, has_extension, is_sep,
    last_component, last_name, law_extensions_stand_behind_the_last_dot,
    law_last_components_stand_behind_a_separator, law_paths_end_with_the_name,
    lemma_last_name_is_of_the_path, PathStyle,
};
use crate::text::{decimal, decimal_of, lower, texts};
use vstd::prelude::*;

verus! {

/// Whether an extension is that of a source file.
pub open spec fn is_source_extension(e: Seq<char>) -> bool {
    let l = lower(e);
    ||| l == lower("c"@)
    ||| l == lower("cc"@)
    ||| l == lower("cpp"@)
    ||| l == lower("cxx"@)
    ||| l == lower("m"@)
    ||| l == lower("mm"@)
    ||| l == lower("rs"@)
}

/// The name of the source file that an argument names, if it names one.
pub open spec fn source_name(argument: Seq<char>, style: PathStyle) -> Option<Seq<char>> {
    match file_name(style, last_component(argument)) {
        Some(name) => match extension(name) {
            Some(e) => if is_source_extension(e) {
                Some(name)
            } else {
                None
            },
            None => None,
        },
        None => None,
    }
}

/// The names of the source files among the arguments, in their order.
pub open spec fn source_names(argv: Seq<Seq<char>>, style: PathStyle) -> Seq<Seq<char>>
    decreases argv.len(),
{
    if argv.len() == 0 {
        Seq::empty()
    } else {
        let before = source_names(argv.drop_last(), style);
        match source_name(argv.last(), style) {
            Some(name) => before.push(name),
            None => before,
        }
    }
}

/// What an action is called: its first source file and how many more there are,
/// else its program.
pub open spec fn label(argv: Seq<Seq<char>>, style: PathStyle) -> Seq<char> {
    let sources = source_names(argv, style);
    if sources.len() > 1 {
        sources[0] + " +"@ + decimal((sources.len() - 1) as nat)
    } else if sources.len() == 1 {
        sources[0]
    } else if argv.len() > 0 {
        last_component(argv[0])
    } else {
        "process"@
    }
}

fn source_of(argument: &str, style: PathStyle) -> (r: Option<String>)
    ensures
        match source_name(argument@, style) {
            Some(name) => r matches Some(s) && s@ == name,
            None => r is None,
        },
{
    match file_name_of(style, base_name(argument).as_str()) {
        Some(name) => {
            let n = name.as_str();
            if has_extension(n, "c") || has_extension(n, "cc") || has_extension(n, "cpp")
                || has_extension(n, "cxx") || has_extension(n, "m") || has_extension(n, "mm")
                || has_extension(n, "rs") {
                Some(name)
            } else {
                None
            }
        },
        None => None,
    }
}

/// What an action is called; `style` tells whose rules its paths follow.
pub fn display_name(command: &Command, style: PathStyle) -> (r: String)
    ensures
        r@ == first_chars(label(texts(command.argv@), style), MAX_DISPLAY_CHARS as int),
{
    let ghost all = texts(command.argv@);
    let mut names: Vec<String> = Vec::new();
    let mut i: usize = 0;
    assert(texts(names@) =~= source_names(all.take(0), style));
    while i < command.argv.len()
        invariant
            i <= command.argv@.len(),
            all == texts(command.argv@),
            texts(names@) == source_names(all.take(i as int), style),
        decreases command.argv@.len() - i,
    {
        assert(all.take(i + 1).drop_last() =~= all.take(i as int));
        assert(all.take(i + 1).last() == command.argv@[i as int]@);
        if let Some(name) = source_of(command.argv[i].as_str(), style) {
            let ghost before = names@;
            let ghost n = name@;
            names.push(name);
            assert(texts(names@) =~= texts(before).push(n));
        }
        i = i + 1;
    }
    assert(all.take(i as int) =~= all);
    let label_text = if names.len() > 0 {
        assert(texts(names@)[0] == names@[0]@);
        let mut s = names[0].clone();
        if names.len() > 1 {
            s.append(" +");
            s.append(decimal_of((names.len() - 1) as u64).as_str());
        }
        s
    } else if command.argv.len() > 0 {
        assert(all[0] == command.argv@[0]@);
        base_name(command.argv[0].as_str())
    } else {
        "process".to_owned()
    };
    truncate_chars(label_text.as_str(), MAX_DISPLAY_CHARS)
}

spec fn no_seps(s: Seq<char>) -> bool {
    forall|i: int| 0 <= i < s.len() ==> !is_sep(#[trigger] s[i])
}

proof fn lemma_component_has_no_seps(s: Seq<char>)
    ensures
        no_seps(last_component(s)),
    decreases s.len(),
{
    if s.len() > 0 && !is_sep(s.last()) {
        lemma_component_has_no_seps(s.drop_last());
    }
}

proof fn lemma_decimal_has_no_seps(n: nat)
    ensures
        no_seps(decimal(n)),
    decreases n,
{
    if n >= 10 {
        lemma_decimal_has_no_seps(n / 10);
    }
}

proof fn lemma_sources_have_no_seps(argv: Seq<Seq<char>>, style: PathStyle, i: int)
    requires
        0 <= i < source_names(argv, style).len(),
    ensures
        no_seps(source_names(argv, style)[i]),
    decreases argv.len(),
{
    if argv.len() > 0 {
        let before = source_names(argv.drop_last(), style);
        if i < before.len() {
            lemma_sources_have_no_seps(argv.drop_last(), style, i);
        } else {
            let c = last_component(argv.last());
            lemma_component_has_no_seps(argv.last());
            lemma_last_name_is_of_the_path(style, c);
            assert forall|j: int| 0 <= j < last_name(style, c).len() implies !is_sep(
                #[trigger] last_name(style, c)[j],
            ) by {
                let k = choose|k: int| 0 <= k < c.len() && c[k] == last_name(style, c)[j];
                assert(!is_sep(c[k]));
            }
        }
    }
}

/// The name of an action tells nothing of where its files are: it holds no
/// separator of paths.
pub proof fn law_names_hold_no_paths(argv: Seq<Seq<char>>, style: PathStyle)
    ensures
        forall|i: int|
            0 <= i < first_chars(label(argv, style), MAX_DISPLAY_CHARS as int).len() ==> !is_sep(
                #[trigger] first_chars(label(argv, style), MAX_DISPLAY_CHARS as int)[i],
            ),
{
    let sources = source_names(argv, style);
    if sources.len() > 0 {
        lemma_sources_have_no_seps(argv, style, 0);
        reveal_strlit(" +");
        lemma_decimal_has_no_seps((sources.len() - 1) as nat);
        assert(no_seps(sources[0] + " +"@));
    } else if argv.len() > 0 {
        lemma_component_has_no_seps(argv[0]);
    } else {
        reveal_strlit("process");
    }
    assert(no_seps(label(argv, style)));
}

/// An argument names a source file exactly where the extension of its last component is one
/// of source files, whatever the case; it is then called by that component.
pub proof fn law_source_files_are_told_by_their_extension(
    front: Seq<char>,
    sep: char,
    base: Seq<char>,
    ext: Seq<char>,
    style: PathStyle,
)
    requires
        is_sep(sep),
        base.len() > 0 && ext.len() > 0,
        !has_drive(base.push('.') + ext),
        forall|i: int| 0 <= i < base.len() ==> !is_sep(#[trigger] base[i]),
        forall|i: int| 0 <= i < ext.len() ==> !is_sep(#[trigger] ext[i]),
        !ext.contains('.'),
    ensures
        ({
            let name = base.push('.') + ext;
            let l = lower(ext);
            let known = l == seq!['c'] || l == seq!['c', 'c'] || l == seq!['c', 'p', 'p'] || l
                == seq!['c', 'x', 'x'] || l == seq!['m'] || l == seq!['m', 'm'] || l == seq![
                'r',
                's',
            ];
            &&& known ==> source_name(name, style) == Some(name)
            &&& known ==> source_name(front.push(sep) + name, style) == Some(name)
            &&& !known ==> source_name(name, style) is None
            &&& !known ==> source_name(front.push(sep) + name, style) is None
        }),
{
    reveal_strlit(".");
    reveal_strlit("..");
    let name = base.push('.') + ext;
    assert forall|i: int| 0 <= i < name.len() implies !is_sep(#[trigger] name[i]) by {
        if i < base.len() {
            assert(name[i] == base[i]);
        } else if i > base.len() {
            assert(name[i] == ext[i - base.len() - 1]);
        }
    }
    law_last_components_stand_behind_a_separator(front, sep, name);
    assert(name.last() == ext.last());
    if ext.last() == '.' {
        assert(ext.contains(ext.last()));
    }
    assert(name != "."@ && name != ".."@) by {
        if name == "."@ || name == ".."@ {
            assert(name.last() == '.');
        }
    }
    assert(name.skip(0) =~= name);
    assert(!is_sep(name[0]));
    assert(body_start(style, name) == 0);
    law_paths_end_with_the_name(style, name, 0);
    law_extensions_stand_behind_the_last_dot(base, ext);
    lemma_source_extensions(ext);
}

proof fn lemma_source_extensions(ext: Seq<char>)
    ensures
        is_source_extension(ext) <==> {
            let l = lower(ext);
            l == seq!['c'] || l == seq!['c', 'c'] || l == seq!['c', 'p', 'p'] || l == seq![
                'c',
                'x',
                'x',
            ] || l == seq!['m'] || l == seq!['m', 'm'] || l == seq!['r', 's']
        },
{
    reveal_strlit("c");
    reveal_strlit("cc");
    reveal_strlit("cpp");
    reveal_strlit("cxx");
    reveal_strlit("m");
    reveal_strlit("mm");
    reveal_strlit("rs");
    assert(lower("c"@) =~= seq!['c']);
    assert(lower("cc"@) =~= seq!['c', 'c']);
    assert(lower("cpp"@) =~= seq!['c', 'p', 'p']);
    assert(lower("cxx"@) =~= seq!['c', 'x', 'x']);
    assert(lower("m"@) =~= seq!['m']);
    assert(lower("mm"@) =~= seq!['m', 'm']);
    assert(lower("rs"@) =~= seq!['r', 's']);
}

/// An action is called by its first source file, with the number of the others behind it; one
/// without any by its program.
pub proof fn law_actions_are_called_by_their_sources(
    argv: Seq<Seq<char>>,
    more: Seq<char>,
    style: PathStyle,
)
    ensures
        source_names(Seq::empty(), style).len() == 0,
        source_name(more, style) matches Some(name) ==> source_names(argv.push(more), style)
            == source_names(argv, style).push(name),
        source_name(more, style) is None ==> source_names(argv.push(more), style) == source_names(
            argv,
            style,
        ),
        source_names(argv, style).len() == 1 ==> label(argv, style) == source_names(argv, style)[0],
        source_names(argv, style).len() > 1 ==> label(argv, style) == source_names(argv, style)[0]
            + " +"@ + decimal((source_names(argv, style).len() - 1) as nat),
        source_names(argv, style).len() == 0 && argv.len() > 0 ==> label(argv, style)
            == last_component(argv[0]),
        argv.len() == 0 ==> label(argv, style) == "process"@,
{
    assert(argv.push(more).drop_last() =~= argv);
}

} // verus!
