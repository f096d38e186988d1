//! The program that a caller's command starts, and how it is started.

use crate::command::Command;
use crate::env_filter::env_texts;
use crate::failure::{Failure, FailureKind};
use crate::filepath::{
    body_start, extension, extension_of, file_name, file_name_of, has_drive, has_extension,
    is_absolute, is_absolute_path, is_sep, join_path, last_name, last_name_of,
    law_climbing_paths_name_no_file, law_extensions_stand_behind_the_last_dot,
    law_paths_end_with_the_name, parent, parent_of, path_join, separates, tidied, tidy_path,
    PathStyle,
};
use crate::launch::batch::{batch_line, make_batch_command_line};
use crate::launch::environment::{environment_value, value_of};
use crate::launch::quoting::{command_line, quote_windows_argv};
use crate::text::{chars_of, has_char, lower, same_text, texts};
use vstd::prelude::*;

verus! {

/// A search path read so far: the directories that are complete, the one that is
/// being read, and whether it is inside quotes.
#[verifier::ext_equal]
pub struct SearchPath {
    pub done: Seq<Seq<char>>,
    pub current: Seq<char>,
    pub inside: bool,
}

/// Reads a search path: semicolons outside quotes separate its directories, and
/// quotes are not part of them.
pub open spec fn read_search_path(s: Seq<char>) -> SearchPath
    decreases s.len(),
{
    if s.len() == 0 {
        SearchPath { done: Seq::empty(), current: Seq::empty(), inside: false }
    } else {
        let st = read_search_path(s.drop_last());
        let c = s.last();
        if c == '"' {
            SearchPath { inside: !st.inside, ..st }
        } else if c == ';' && !st.inside {
            SearchPath { done: st.done.push(st.current), current: Seq::empty(), ..st }
        } else {
            SearchPath { current: st.current.push(c), ..st }
        }
    }
}

/// The directories of a search path, in their order.
pub open spec fn search_dirs(s: Seq<char>) -> Seq<Seq<char>> {
    let st = read_search_path(s);
    st.done.push(st.current)
}

/// The directories of a search path.
pub fn split_search_path(path: &str) -> (r: Vec<String>)
    ensures
        texts(r@) == search_dirs(path@),
{
    let mut done: Vec<String> = Vec::new();
    let mut current = String::new();
    let mut inside = false;
    assert(texts(done@) =~= Seq::<Seq<char>>::empty());
    for c in it: path.chars()
        invariant
            it.seq() == path@,
            read_search_path(path@.take(it.index())) == (SearchPath {
                done: texts(done@),
                current: current@,
                inside,
            }),
    {
        let ghost now = path@.take(it.index() + 1);
        assert(now.drop_last() =~= path@.take(it.index()));
        assert(now.last() == c);
        let ghost before = done@;
        if c == '"' {
            inside = !inside;
        } else if c == ';' && !inside {
            let ghost dir = current@;
            done.push(current);
            current = String::new();
            assert(texts(done@) =~= texts(before).push(dir));
        } else {
            current.push(c);
        }
    }
    assert(path@.take(path@.len() as int) =~= path@);
    let ghost before = done@;
    let ghost dir = current@;
    done.push(current);
    assert(texts(done@) =~= texts(before).push(dir));
    done
}

/// The path at which a program is looked for: one without an extension gets
/// `.exe`.
pub open spec fn exe_path(p: Seq<char>) -> Seq<char> {
    match file_name(PathStyle::Windows, p) {
        Some(name) => if extension(name) is None {
            tidy_path(PathStyle::Windows, p) + ".exe"@
        } else {
            p
        },
        None => p,
    }
}

/// The path at which a program is looked for.
pub fn with_exe(path: &str) -> (r: String)
    ensures
        r@ == exe_path(path@),
{
    match file_name_of(PathStyle::Windows, path) {
        Some(name) => {
            if extension_of(name.as_str()).is_none() {
                let mut r = tidied(PathStyle::Windows, path);
                r.append(".exe");
                r
            } else {
                path.to_owned()
            }
        },
        None => path.to_owned(),
    }
}

/// Whether a program is named by a path and not by a bare name.
pub open spec fn is_explicit(program: Seq<char>) -> bool {
    program.contains('\\') || program.contains('/') || (has_drive(program) && program.len() > 2)
}

/// A path as seen from `cwd`.
pub open spec fn seen_from(cwd: Seq<char>, p: Seq<char>) -> Seq<char> {
    if is_absolute(PathStyle::Windows, p) {
        p
    } else {
        path_join(PathStyle::Windows, cwd, p)
    }
}

/// Where a bare name is looked for: in each directory of the search path that is
/// not empty.
pub open spec fn places_in(
    dirs: Seq<Seq<char>>,
    program: Seq<char>,
    cwd: Seq<char>,
) -> Seq<Seq<char>>
    decreases dirs.len(),
{
    if dirs.len() == 0 {
        Seq::empty()
    } else {
        let rest = places_in(dirs.drop_last(), program, cwd);
        if dirs.last().len() == 0 {
            rest
        } else {
            rest.push(exe_path(path_join(PathStyle::Windows, seen_from(cwd, dirs.last()), program)))
        }
    }
}

/// The places where a caller's program is looked for, in their order. The
/// working directory is not one of them for a bare name.
pub open spec fn program_places(
    program: Seq<char>,
    cwd: Seq<char>,
    env: Seq<(Seq<char>, Seq<char>)>,
) -> Seq<Seq<char>> {
    if is_explicit(program) {
        let p = seen_from(cwd, program);
        match (parent(PathStyle::Windows, p), file_name(PathStyle::Windows, p)) {
            (Some(dir), Some(name)) => seq![exe_path(path_join(PathStyle::Windows, dir, name))],
            _ => Seq::empty(),
        }
    } else {
        match value_of(env, "PATH"@) {
            Some(path) => places_in(search_dirs(path), program, cwd),
            None => Seq::empty(),
        }
    }
}

fn resolve_from(cwd: &str, path: &str) -> (r: String)
    ensures
        r@ == seen_from(cwd@, path@),
{
    if is_absolute_path(PathStyle::Windows, path) {
        path.to_owned()
    } else {
        join_path(PathStyle::Windows, cwd, path)
    }
}

/// Whether a path ends in a component that names no file, `.` or `..`.
pub open spec fn ends_in_dots(p: Seq<char>) -> bool {
    let n = last_name(PathStyle::Windows, p);
    n == "."@ || n == ".."@
}

/// Whether `program`, seen from `cwd`, does not end in `.` or `..`.
pub fn is_resolvable(program: &str, cwd: &str) -> (r: bool)
    ensures
        r == !ends_in_dots(seen_from(cwd@, program@)),
{
    let name = last_name_of(PathStyle::Windows, resolve_from(cwd, program).as_str());
    !same_text(name.as_str(), ".") && !same_text(name.as_str(), "..")
}

/// The places where a caller's program is looked for, in their order.
pub fn resolve_caller_program(
    program: &str,
    cwd: &str,
    environment: &Vec<(String, String)>,
) -> (r: Result<Vec<String>, Failure>)
    requires
        is_explicit(program@) && program@.len() > 0 && !program@.contains('\0')
            ==> !ends_in_dots(seen_from(cwd@, program@)),
    ensures
        match r {
            Ok(places) => {
                &&& program@.len() > 0 && !program@.contains('\0')
                &&& texts(places@) == program_places(program@, cwd@, env_texts(environment@))
            },
            Err(f) => {
                &&& program@.len() == 0 || program@.contains('\0')
                &&& f@ == (
                    FailureKind::InvalidInput,
                    "command argv[0] must be a nonempty NUL-free string"@,
                )
            },
        },
{
    if program.is_empty() || has_char(program, '\0') {
        return Err(
            Failure::new(
                FailureKind::InvalidInput,
                "command argv[0] must be a nonempty NUL-free string",
            ),
        );
    }
    let mut places: Vec<String> = Vec::new();
    assert(texts(places@) =~= Seq::<Seq<char>>::empty());
    let chars = chars_of(program);
    let drive_qualified = chars.len() > 2 && chars[1] == ':' && (('A' <= chars[0] && chars[0]
        <= 'Z') || ('a' <= chars[0] && chars[0] <= 'z'));
    if has_char(program, '\\') || has_char(program, '/') || drive_qualified {
        let p = resolve_from(cwd, program);
        if let Some(dir) = parent_of(PathStyle::Windows, p.as_str()) {
            if let Some(name) = file_name_of(PathStyle::Windows, p.as_str()) {
                let place = join_path(PathStyle::Windows, dir.as_str(), name.as_str());
                places.push(with_exe(place.as_str()));
                assert(texts(places@) =~= seq![exe_path(place@)]);
            }
        }
        return Ok(places);
    }
    if let Some(path) = environment_value(environment, "PATH") {
        let dirs = split_search_path(path.as_str());
        let ghost all = texts(dirs@);
        let mut i: usize = 0;
        assert(all.take(0) =~= Seq::<Seq<char>>::empty());
        while i < dirs.len()
            invariant
                i <= dirs@.len(),
                all == texts(dirs@),
                texts(places@) == places_in(all.take(i as int), program@, cwd@),
            decreases dirs@.len() - i,
        {
            let ghost now = all.take(i + 1);
            assert(now.drop_last() =~= all.take(i as int));
            assert(now.last() == dirs@[i as int]@);
            if !dirs[i].as_str().is_empty() {
                let dir = resolve_from(cwd, dirs[i].as_str());
                let ghost before = places@;
                let place = with_exe(
                    join_path(PathStyle::Windows, dir.as_str(), program).as_str(),
                );
                let ghost p = place@;
                places.push(place);
                assert(texts(places@) =~= texts(before).push(p));
            }
            i = i + 1;
        }
        assert(all.take(i as int) =~= all);
    }
    Ok(places)
}

/// The failure when none of the places holds the program.
pub fn program_not_found(program: &str) -> (r: Failure)
    ensures
        r@ == (
            FailureKind::NotFound,
            "caller program was not found using caller cwd/PATH: "@ + program@,
        ),
{
    Failure::about(
        FailureKind::NotFound,
        "caller program was not found using caller cwd/PATH: ",
        program,
    )
}

/// What is wrong with a caller's command, if anything is; `cwd_is_dir` tells
/// whether its working directory is one.
pub open spec fn command_problem(
    argv: Seq<Seq<char>>,
    cwd: Seq<char>,
    cwd_is_dir: bool,
) -> Option<(FailureKind, Seq<char>)> {
    if argv.len() == 0 {
        Some((FailureKind::InvalidInput, "command.argv is empty"@))
    } else if exists|i: int| 0 <= i < argv.len() && (#[trigger] argv[i]).contains('\0') {
        Some((FailureKind::InvalidInput, "command arguments must not contain NUL"@))
    } else if cwd.len() == 0 || cwd.contains('\0') {
        Some(
            (
                FailureKind::InvalidInput,
                "authenticated caller command requires a nonempty NUL-free cwd"@,
            ),
        )
    } else if !is_absolute(PathStyle::Windows, cwd) || !cwd_is_dir {
        Some(
            (
                FailureKind::InvalidInput,
                "authenticated caller cwd is not an absolute directory: "@ + cwd,
            ),
        )
    } else {
        None
    }
}

/// Checks a caller's command before its program is looked for.
pub fn check_caller_command(command: &Command, cwd_is_dir: bool) -> (r: Result<(), Failure>)
    ensures
        match r {
            Ok(_) => command_problem(texts(command.argv@), command.cwd@, cwd_is_dir) is None,
            Err(f) => command_problem(texts(command.argv@), command.cwd@, cwd_is_dir) == Some(f@),
        },
{
    if command.argv.len() == 0 {
        return Err(Failure::new(FailureKind::InvalidInput, "command.argv is empty"));
    }
    let mut i: usize = 0;
    while i < command.argv.len()
        invariant
            i <= command.argv@.len(),
            command.argv@.len() > 0,
            forall|j: int| 0 <= j < i ==> !(#[trigger] texts(command.argv@)[j]).contains('\0'),
        decreases command.argv@.len() - i,
    {
        assert(texts(command.argv@)[i as int] == command.argv@[i as int]@);
        if has_char(command.argv[i].as_str(), '\0') {
            return Err(
                Failure::new(FailureKind::InvalidInput, "command arguments must not contain NUL"),
            );
        }
        i = i + 1;
    }
    let cwd = command.cwd.as_str();
    if cwd.is_empty() || has_char(cwd, '\0') {
        return Err(
            Failure::new(
                FailureKind::InvalidInput,
                "authenticated caller command requires a nonempty NUL-free cwd",
            ),
        );
    }
    if !is_absolute_path(PathStyle::Windows, cwd) || !cwd_is_dir {
        return Err(
            Failure::about(
                FailureKind::InvalidInput,
                "authenticated caller cwd is not an absolute directory: ",
                cwd,
            ),
        );
    }
    Ok(())
}

/// How a program is started.
#[derive(Debug, PartialEq, Eq)]
pub struct CallerLaunch {
    pub application: String,
    pub command_line: String,
    pub cwd: String,
    pub environment: Vec<(String, String)>,
}

/// Whether a program is a batch file.
pub open spec fn is_batch(application: Seq<char>) -> bool {
    match file_name(PathStyle::Windows, application) {
        Some(name) => match extension(name) {
            Some(e) => lower(e) == lower("cmd"@) || lower(e) == lower("bat"@),
            None => false,
        },
        None => false,
    }
}

/// Whether a program is a batch file.
pub fn is_batch_file(application: &str) -> (r: bool)
    ensures
        r == is_batch(application@),
{
    match file_name_of(PathStyle::Windows, application) {
        Some(name) => has_extension(name.as_str(), "cmd") || has_extension(name.as_str(), "bat"),
        None => false,
    }
}

/// What to do with a program that was found.
pub enum LaunchStep {
    /// Start it.
    Start(CallerLaunch),
    /// It is a batch file: find the command interpreter named here, which runs
    /// it.
    FindInterpreter(String),
}

/// Decides how the program found at `application` is started.
pub fn prepare_caller_launch(
    command: &Command,
    application: &str,
    environment: Vec<(String, String)>,
) -> (r: Result<LaunchStep, Failure>)
    requires
        command.argv@.len() > 0,
    ensures
        match r {
            Ok(LaunchStep::Start(launch)) => {
                &&& !is_batch(application@)
                &&& launch.application@ == application@
                &&& launch.command_line@ == command_line(
                    texts(command.argv@).update(0, application@),
                )
                &&& launch.cwd@ == command.cwd@
                &&& launch.environment == environment
            },
            Ok(LaunchStep::FindInterpreter(program)) => {
                &&& is_batch(application@)
                &&& value_of(env_texts(environment@), "ComSpec"@) == Some(program@)
            },
            Err(f) => {
                &&& is_batch(application@)
                &&& value_of(env_texts(environment@), "ComSpec"@) is None
                &&& f@ == (
                    FailureKind::NotFound,
                    "caller environment has no ComSpec for batch execution"@,
                )
            },
        },
{
    if is_batch_file(application) {
        return match environment_value(&environment, "ComSpec") {
            Some(program) => Ok(LaunchStep::FindInterpreter(program)),
            None => Err(
                Failure::new(
                    FailureKind::NotFound,
                    "caller environment has no ComSpec for batch execution",
                ),
            ),
        };
    }
    let mut argv: Vec<String> = Vec::new();
    argv.push(application.to_owned());
    let mut i: usize = 1;
    while i < command.argv.len()
        invariant
            1 <= i <= command.argv@.len(),
            argv@.len() == i,
            texts(argv@) == texts(command.argv@).update(0, application@).take(i as int),
        decreases command.argv@.len() - i,
    {
        argv.push(command.argv[i].clone());
        assert(texts(argv@) =~= texts(command.argv@).update(0, application@).take(i + 1));
        i = i + 1;
    }
    assert(texts(argv@) =~= texts(command.argv@).update(0, application@));
    let line = quote_windows_argv(&argv);
    Ok(
        LaunchStep::Start(
            CallerLaunch {
                application: application.to_owned(),
                command_line: line,
                cwd: command.cwd.clone(),
                environment,
            },
        ),
    )
}

/// Decides how the batch file `script` is run by the command interpreter at
/// `interpreter`.
pub fn prepare_batch_launch(
    command: &Command,
    script: &str,
    interpreter: &str,
    environment: Vec<(String, String)>,
) -> (r: Result<CallerLaunch, Failure>)
    requires
        command.argv@.len() > 0,
    ensures
        match batch_line(script@, texts(command.argv@).drop_first()) {
            Ok(line) => r matches Ok(launch) && launch.application@ == interpreter@
                && launch.command_line@ == line && launch.cwd@ == command.cwd@
                && launch.environment == environment,
            Err(problem) => r matches Err(f) && f@ == problem,
        },
{
    let mut args: Vec<String> = Vec::new();
    let mut i: usize = 1;
    while i < command.argv.len()
        invariant
            1 <= i <= command.argv@.len(),
            args@.len() == i - 1,
            texts(args@) == texts(command.argv@).drop_first().take(i - 1),
        decreases command.argv@.len() - i,
    {
        args.push(command.argv[i].clone());
        assert(texts(args@) =~= texts(command.argv@).drop_first().take(i as int));
        i = i + 1;
    }
    assert(texts(args@) =~= texts(command.argv@).drop_first());
    match make_batch_command_line(script, &args) {
        Ok(line) => Ok(
            CallerLaunch {
                application: interpreter.to_owned(),
                command_line: line,
                cwd: command.cwd.clone(),
                environment,
            },
        ),
        Err(f) => Err(f),
    }
}

/// A bare name is never looked for in the working directory unless the search
/// path leads there: without a search path there is no place to look.
pub proof fn law_bare_name_needs_a_search_path(
    program: Seq<char>,
    cwd: Seq<char>,
    env: Seq<(Seq<char>, Seq<char>)>,
)
    requires
        !is_explicit(program),
        value_of(env, "PATH"@) is None,
    ensures
        program_places(program, cwd, env).len() == 0,
{
}

/// Empty entries of a search path name no directory: a path of semicolons leads
/// nowhere.
pub proof fn law_empty_search_entries_are_ignored(
    dirs: Seq<Seq<char>>,
    program: Seq<char>,
    cwd: Seq<char>,
)
    requires
        forall|i: int| 0 <= i < dirs.len() ==> (#[trigger] dirs[i]).len() == 0,
    ensures
        places_in(dirs, program, cwd).len() == 0,
    decreases dirs.len(),
{
    if dirs.len() > 0 {
        let init = dirs.drop_last();
        assert forall|i: int| 0 <= i < init.len() implies (#[trigger] init[i]).len() == 0 by {
            assert(init[i] == dirs[i]);
        }
        law_empty_search_entries_are_ignored(init, program, cwd);
        assert(dirs[dirs.len() - 1].len() == 0);
    }
}

/// The directories of a search path that are not empty, in their order.
pub open spec fn named_dirs(dirs: Seq<Seq<char>>) -> Seq<Seq<char>> {
    dirs.filter(|d: Seq<char>| d.len() > 0)
}

/// A bare name is looked for once in each directory of the search path that is not empty,
/// in their order: by the directory, as seen from the working directory, joined with the
/// name, and with `.exe` where the name has no extension.
pub proof fn law_every_directory_is_searched(
    dirs: Seq<Seq<char>>,
    program: Seq<char>,
    cwd: Seq<char>,
)
    ensures
        ({
            let places = places_in(dirs, program, cwd);
            let named = named_dirs(dirs);
            &&& places.len() == named.len()
            &&& forall|i: int|
                0 <= i < named.len() ==> {
                    let dir = if is_absolute(PathStyle::Windows, named[i]) {
                        named[i]
                    } else {
                        path_join(PathStyle::Windows, cwd, named[i])
                    };
                    #[trigger] places[i] == exe_path(path_join(PathStyle::Windows, dir, program))
                }
        }),
    decreases dirs.len(),
{
    let keep = |d: Seq<char>| d.len() > 0;
    reveal(Seq::filter);
    if dirs.len() > 0 {
        let init = dirs.drop_last();
        law_every_directory_is_searched(init, program, cwd);
        let before = places_in(init, program, cwd);
        assert(named_dirs(dirs) == if dirs.last().len() > 0 {
            named_dirs(init).push(dirs.last())
        } else {
            named_dirs(init)
        });
        let places = places_in(dirs, program, cwd);
        let named = named_dirs(dirs);
        assert forall|i: int| 0 <= i < named.len() implies {
            let dir = if is_absolute(PathStyle::Windows, named[i]) {
                named[i]
            } else {
                path_join(PathStyle::Windows, cwd, named[i])
            };
            #[trigger] places[i] == exe_path(path_join(PathStyle::Windows, dir, program))
        } by {
            if i < before.len() {
                assert(places[i] == before[i]);
                assert(named[i] == named_dirs(init)[i]);
            }
        }
    }
}

/// The places of a search path put together of two are those of the first, and behind them
/// those of the second.
pub proof fn law_search_paths_add_up(
    a: Seq<Seq<char>>,
    b: Seq<Seq<char>>,
    program: Seq<char>,
    cwd: Seq<char>,
)
    ensures
        places_in(a + b, program, cwd) == places_in(a, program, cwd) + places_in(b, program, cwd),
    decreases b.len(),
{
    if b.len() == 0 {
        assert(a + b =~= a);
        assert(places_in(a, program, cwd) + places_in(b, program, cwd) =~= places_in(
            a,
            program,
            cwd,
        ));
    } else {
        law_search_paths_add_up(a, b.drop_last(), program, cwd);
        assert((a + b).drop_last() =~= a + b.drop_last());
        assert((a + b).last() == b.last());
        assert(places_in(a + b, program, cwd) =~= places_in(a, program, cwd) + places_in(
            b,
            program,
            cwd,
        ));
    }
}

/// A program that is named by a path is looked for there alone, as seen from the working
/// directory; any other along the search path of the environment.
pub proof fn law_paths_are_not_searched_for(
    program: Seq<char>,
    cwd: Seq<char>,
    env: Seq<(Seq<char>, Seq<char>)>,
)
    ensures
        (exists|i: int| 0 <= i < program.len() && (#[trigger] program[i] == '\\' || program[i]
            == '/')) ==> program_places(program, cwd, env).len() <= 1,
        ({
            let p = if is_absolute(PathStyle::Windows, program) {
                program
            } else {
                path_join(PathStyle::Windows, cwd, program)
            };
            let explicit = program.len() > 2 && program[1] == ':' && (('a' <= program[0]
                && program[0] <= 'z') || ('A' <= program[0] && program[0] <= 'Z')) || exists|i: int|
                0 <= i < program.len() && (#[trigger] program[i] == '\\' || program[i] == '/');
            &&& explicit && file_name(PathStyle::Windows, p) is Some && parent(
                PathStyle::Windows,
                p,
            ) is Some ==> program_places(program, cwd, env) == seq![
                exe_path(
                    path_join(
                        PathStyle::Windows,
                        parent(PathStyle::Windows, p)->0,
                        file_name(PathStyle::Windows, p)->0,
                    ),
                ),
            ]
            &&& !explicit ==> match value_of(env, "PATH"@) {
                Some(path) => program_places(program, cwd, env) == places_in(
                    search_dirs(path),
                    program,
                    cwd,
                ),
                None => program_places(program, cwd, env).len() == 0,
            }
        }),
{
    assert((program.contains('\\') || program.contains('/')) <==> exists|i: int|
        0 <= i < program.len() && (#[trigger] program[i] == '\\' || program[i] == '/'));
}

/// What a place is: the path itself where its name has an extension, and with `.exe` behind
/// it where the name has none.
pub proof fn law_places_end_in_an_extension(dir: Seq<char>, name: Seq<char>)
    requires
        file_name(PathStyle::Windows, dir + seq!['\\'] + name) == Some(name),
        tidy_path(PathStyle::Windows, dir + seq!['\\'] + name) == dir + seq!['\\'] + name,
    ensures
        extension(name) is Some ==> exe_path(dir + seq!['\\'] + name) == dir + seq!['\\'] + name,
        extension(name) is None ==> exe_path(dir + seq!['\\'] + name) == dir + seq!['\\'] + name
            + seq!['.', 'e', 'x', 'e'],
{
    reveal_strlit(".exe");
    assert(".exe"@ =~= seq!['.', 'e', 'x', 'e']);
}

proof fn lemma_read_goes_on(a: Seq<char>, b: Seq<char>)
    requires
        !read_search_path(a).inside,
    ensures
        ({
            let s = read_search_path(a.push(';') + b);
            let t = read_search_path(b);
            &&& s.done == search_dirs(a) + t.done
            &&& s.current == t.current
            &&& s.inside == t.inside
        }),
    decreases b.len(),
{
    let whole = a.push(';') + b;
    if b.len() == 0 {
        assert(whole =~= a.push(';'));
        assert(whole.drop_last() =~= a);
        assert(search_dirs(a) + Seq::<Seq<char>>::empty() =~= search_dirs(a));
    } else {
        lemma_read_goes_on(a, b.drop_last());
        assert(whole.drop_last() =~= a.push(';') + b.drop_last());
        assert(whole.last() == b.last());
        let t = read_search_path(b.drop_last());
        assert((search_dirs(a) + t.done).push(t.current) =~= search_dirs(a) + t.done.push(
            t.current,
        ));
    }
}

/// How a search path is read: a semicolon outside quotes ends a directory, so that what
/// stands before and behind it is read by itself.
pub proof fn law_semicolons_part_directories(a: Seq<char>, b: Seq<char>)
    requires
        !read_search_path(a).inside,
    ensures
        search_dirs(a + seq![';'] + b) == search_dirs(a) + search_dirs(b),
        read_search_path(a + seq![';'] + b).inside == read_search_path(b).inside,
{
    lemma_read_goes_on(a, b);
    assert(a + seq![';'] + b =~= a.push(';') + b);
    let t = read_search_path(b);
    assert((search_dirs(a) + t.done).push(t.current) =~= search_dirs(a) + t.done.push(t.current));
}

/// Text without semicolons and quotes is one directory; text in quotes is one directory
/// whatever it holds, without the quotes.
pub proof fn law_quotes_hold_a_directory_together(dir: Seq<char>)
    requires
        forall|i: int| 0 <= i < dir.len() ==> #[trigger] dir[i] != '"',
    ensures
        (forall|i: int| 0 <= i < dir.len() ==> #[trigger] dir[i] != ';') ==> search_dirs(dir)
            == seq![dir] && !read_search_path(dir).inside,
        search_dirs(seq!['"'] + dir + seq!['"']) == seq![dir],
        !read_search_path(seq!['"'] + dir + seq!['"']).inside,
{
    lemma_one_directory(dir);
    let opened = seq!['"'] + dir;
    let whole = opened + seq!['"'];
    assert(whole.drop_last() =~= opened);
    assert(whole.last() == '"');
    let none = Seq::<Seq<char>>::empty();
    assert(none.push(dir) =~= seq![dir]);
}

proof fn lemma_one_directory(dir: Seq<char>)
    requires
        forall|i: int| 0 <= i < dir.len() ==> #[trigger] dir[i] != '"',
    ensures
        (forall|i: int| 0 <= i < dir.len() ==> #[trigger] dir[i] != ';') ==> read_search_path(dir)
            == (SearchPath { done: Seq::empty(), current: dir, inside: false }),
        read_search_path(seq!['"'] + dir) == (SearchPath {
            done: Seq::empty(),
            current: dir,
            inside: true,
        }),
    decreases dir.len(),
{
    let opened = seq!['"'] + dir;
    if dir.len() == 0 {
        assert(opened =~= seq!['"']);
        assert(opened.drop_last() =~= Seq::<char>::empty());
        assert(dir =~= Seq::<char>::empty());
    } else {
        let init = dir.drop_last();
        assert forall|i: int| 0 <= i < init.len() implies #[trigger] init[i] != '"' by {
            assert(init[i] == dir[i]);
        }
        lemma_one_directory(init);
        assert(opened.drop_last() =~= seq!['"'] + init);
        assert(opened.last() == dir.last());
        assert(dir[dir.len() - 1] != '"');
        assert(init.push(dir.last()) =~= dir);
        if forall|i: int| 0 <= i < dir.len() ==> #[trigger] dir[i] != ';' {
            assert forall|i: int| 0 <= i < init.len() implies #[trigger] init[i] != ';' by {
                assert(init[i] == dir[i]);
            }
            assert(dir[dir.len() - 1] != ';');
        }
    }
}

/// A command of a caller is sound exactly where it has a first word, no word of it holds a
/// zero, and its working directory is given, holds no zero, is absolute, and is a directory.
pub proof fn law_sound_commands_are_taken(
    argv: Seq<Seq<char>>,
    cwd: Seq<char>,
    cwd_is_dir: bool,
)
    ensures
        command_problem(argv, cwd, cwd_is_dir) is None <==> {
            &&& argv.len() > 0
            &&& forall|i: int, j: int|
                0 <= i < argv.len() && 0 <= j < (#[trigger] argv[i]).len()
                    ==> #[trigger] argv[i][j] != '\0'
            &&& cwd.len() > 0
            &&& forall|j: int| 0 <= j < cwd.len() ==> #[trigger] cwd[j] != '\0'
            &&& is_absolute(PathStyle::Windows, cwd)
            &&& cwd_is_dir
        },
        command_problem(argv, cwd, cwd_is_dir) matches Some(p) ==> p.0 == FailureKind::InvalidInput,
{
    if exists|i: int| 0 <= i < argv.len() && (#[trigger] argv[i]).contains('\0') {
        let i = choose|i: int| 0 <= i < argv.len() && (#[trigger] argv[i]).contains('\0');
        let j = argv[i].index_of('\0');
        assert(argv[i][j] == '\0');
    } else {
        assert forall|i: int, j: int|
            0 <= i < argv.len() && 0 <= j < (#[trigger] argv[i]).len() implies #[trigger] argv[i][j]
            != '\0' by {
            if argv[i][j] == '\0' {
                assert(argv[i].contains(argv[i][j]));
            }
        }
    }
    if cwd.contains('\0') {
        assert(cwd[cwd.index_of('\0')] == '\0');
    }
}

/// A program is a batch file exactly where the extension of its file is `cmd` or `bat`,
/// whatever the case. Its path leads to a file wherever its last component is a name, and
/// not where that is `..`.
pub proof fn law_batch_files_are_told_by_their_extension(
    dir: Seq<char>,
    sep: char,
    base: Seq<char>,
    ext: Seq<char>,
)
    requires
        is_sep(sep),
        dir.len() > 0 && !is_sep(dir[0]),
        base.len() > 0 && ext.len() > 0,
        forall|i: int| 0 <= i < base.len() ==> !is_sep(#[trigger] base[i]),
        forall|i: int| 0 <= i < ext.len() ==> !is_sep(#[trigger] ext[i]),
        !ext.contains('.'),
    ensures
        is_batch(dir.push(sep) + (base.push('.') + ext)) <==> lower(ext) == seq!['c', 'm', 'd']
            || lower(ext) == seq!['b', 'a', 't'],
        !ends_in_dots(dir.push(sep) + (base.push('.') + ext)),
        ends_in_dots(dir.push(sep) + ".."@),
{
    reveal_strlit(".");
    reveal_strlit("..");
    reveal_strlit("cmd");
    reveal_strlit("bat");
    assert(lower("cmd"@) =~= seq!['c', 'm', 'd']);
    assert(lower("bat"@) =~= seq!['b', 'a', 't']);
    let style = PathStyle::Windows;
    let name = base.push('.') + ext;
    let p = dir.push(sep) + name;
    let k = (dir.len() + 1) as int;
    assert(name.last() == ext.last());
    if ext.last() == '.' {
        assert(ext.contains(ext.last()));
    }
    assert(name != "."@ && name != ".."@) by {
        if name == "."@ || name == ".."@ {
            assert(name.last() == '.');
        }
    }
    law_extensions_stand_behind_the_last_dot(base, ext);
    assert(p.skip(k) =~= name);
    assert(p[k - 1] == sep);
    assert(p[0] == dir[0]);
    assert forall|i: int| k <= i < p.len() implies !separates(style, false, #[trigger] p[i]) by {
        assert(p[i] == name[i - k]);
        if i - k < base.len() {
            assert(name[i - k] == base[i - k]);
        } else if i - k > base.len() {
            assert(name[i - k] == ext[i - k - base.len() - 1]);
        }
    }
    assert(body_start(style, p) <= k);
    law_paths_end_with_the_name(style, p, k);
    let q = dir.push(sep) + ".."@;
    assert(q.skip(k) =~= ".."@);
    assert(q[k - 1] == sep);
    assert(q[0] == dir[0]);
    assert(body_start(style, q) <= k);
    law_climbing_paths_name_no_file(style, q, k);
}

} // verus!
