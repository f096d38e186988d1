//! The environment that travels with an action.
//!
//! An action can run on another machine, so only the variables that a Windows
//! C/C++ toolchain needs are sent along. Whatever is not on the list, a
//! credential say, stays where it is. A build that needs more names it in
//! [`ENV_PASSTHROUGH_VAR`].

use crate::text::{
    list_of, lower, lower_char, same_ignoring_case, same_text, split_list, starts_with, texts,
    to_upper, upper, upper_char,
};
use vstd::prelude::*;

verus! {

/// The variable that names further variables to send, separated by commas.
pub const ENV_PASSTHROUGH_VAR: &'static str = "SEMBAZURU_ENV_PASSTHROUGH";

/// The names that are sent, in upper case: search paths, temporary directories,
/// basics of the operating system, program directories, and the locators of
/// Visual Studio and the Windows SDK.
pub open spec fn is_listed(up: Seq<char>) -> bool {
    ||| up == "PATH"@
    ||| up == "INCLUDE"@
    ||| up == "LIB"@
    ||| up == "LIBPATH"@
    ||| up == "CL"@
    ||| up == "_CL_"@
    ||| up == "CC"@
    ||| up == "CXX"@
    ||| up == "TMP"@
    ||| up == "TEMP"@
    ||| up == "SYSTEMROOT"@
    ||| up == "SYSTEMDRIVE"@
    ||| up == "WINDIR"@
    ||| up == "COMSPEC"@
    ||| up == "PATHEXT"@
    ||| up == "OS"@
    ||| up == "NUMBER_OF_PROCESSORS"@
    ||| up == "PROCESSOR_ARCHITECTURE"@
    ||| up == "PROCESSOR_ARCHITEW6432"@
    ||| up == "PROCESSOR_IDENTIFIER"@
    ||| up == "PROCESSOR_LEVEL"@
    ||| up == "PROCESSOR_REVISION"@
    ||| up == "PROGRAMDATA"@
    ||| up == "PROGRAMFILES"@
    ||| up == "PROGRAMFILES(X86)"@
    ||| up == "PROGRAMW6432"@
    ||| up == "COMMONPROGRAMFILES"@
    ||| up == "COMMONPROGRAMFILES(X86)"@
    ||| up == "COMMONPROGRAMW6432"@
    ||| up == "VSINSTALLDIR"@
    ||| up == "VCINSTALLDIR"@
    ||| up == "VCTOOLSINSTALLDIR"@
    ||| up == "VCTOOLSVERSION"@
    ||| up == "VCTOOLSREDISTDIR"@
    ||| up == "VCIDEINSTALLDIR"@
    ||| up == "VISUALSTUDIOVERSION"@
    ||| up == "DEVENVDIR"@
    ||| up == "WINDOWSSDKDIR"@
    ||| up == "WINDOWSSDKVERSION"@
    ||| up == "WINDOWSSDKBINPATH"@
    ||| up == "WINDOWSSDKVERBINPATH"@
    ||| up == "WINDOWSLIBPATH"@
    ||| up == "UCRTVERSION"@
    ||| up == "UNIVERSALCRTSDKDIR"@
    ||| up == "EXTENSIONSDKDIR"@
    ||| up == "FRAMEWORKDIR"@
    ||| up == "FRAMEWORKDIR64"@
    ||| up == "FRAMEWORKVERSION"@
    ||| up == "FRAMEWORKVERSION64"@
    ||| up == "FRAMEWORK40VERSION"@
    ||| up == "NETFXSDKDIR"@
}

/// The beginnings of further names that are sent, in upper case.
pub open spec fn has_listed_prefix(up: Seq<char>) -> bool {
    ||| "VSCMD_"@.is_prefix_of(up)
    ||| "__VSCMD"@.is_prefix_of(up)
    ||| "WINDOWSSDK"@.is_prefix_of(up)
    ||| "VCTOOLS"@.is_prefix_of(up)
    ||| "FRAMEWORK"@.is_prefix_of(up)
}

/// Whether the variable `name` is sent when `extra` names further ones.
pub open spec fn is_sent(name: Seq<char>, extra: Seq<Seq<char>>) -> bool {
    ||| is_listed(upper(name))
    ||| has_listed_prefix(upper(name))
    ||| exists|i: int| 0 <= i < extra.len() && lower(#[trigger] extra[i]) == lower(name)
}

/// A list of variables by their texts.
pub open spec fn env_texts(env: Seq<(String, String)>) -> Seq<(Seq<char>, Seq<char>)> {
    Seq::new(env.len(), |i: int| (env[i].0@, env[i].1@))
}

/// The further names that an environment asks for: those in the first variable
/// called [`ENV_PASSTHROUGH_VAR`], whatever the case of its name.
pub open spec fn requested_names(env: Seq<(Seq<char>, Seq<char>)>) -> Seq<Seq<char>>
    decreases env.len(),
{
    if env.len() == 0 {
        Seq::empty()
    } else if lower(env[0].0) == lower("SEMBAZURU_ENV_PASSTHROUGH"@) {
        split_list(env[0].1, ',')
    } else {
        requested_names(env.drop_first())
    }
}

/// The variables of `env` that are sent, in their order.
pub open spec fn sent_vars(
    env: Seq<(Seq<char>, Seq<char>)>,
    extra: Seq<Seq<char>>,
) -> Seq<(Seq<char>, Seq<char>)>
    decreases env.len(),
{
    if env.len() == 0 {
        Seq::empty()
    } else {
        let rest = sent_vars(env.drop_last(), extra);
        if is_sent(env.last().0, extra) {
            rest.push(env.last())
        } else {
            rest
        }
    }
}

fn is_listed_name(up: &str) -> (r: bool)
    ensures
        r == is_listed(up@),
{
    same_text(up, "PATH")
        || same_text(up, "INCLUDE")
        || same_text(up, "LIB")
        || same_text(up, "LIBPATH")
        || same_text(up, "CL")
        || same_text(up, "_CL_")
        || same_text(up, "CC")
        || same_text(up, "CXX")
        || same_text(up, "TMP")
        || same_text(up, "TEMP")
        || same_text(up, "SYSTEMROOT")
        || same_text(up, "SYSTEMDRIVE")
        || same_text(up, "WINDIR")
        || same_text(up, "COMSPEC")
        || same_text(up, "PATHEXT")
        || same_text(up, "OS")
        || same_text(up, "NUMBER_OF_PROCESSORS")
        || same_text(up, "PROCESSOR_ARCHITECTURE")
        || same_text(up, "PROCESSOR_ARCHITEW6432")
        || same_text(up, "PROCESSOR_IDENTIFIER")
        || same_text(up, "PROCESSOR_LEVEL")
        || same_text(up, "PROCESSOR_REVISION")
        || same_text(up, "PROGRAMDATA")
        || same_text(up, "PROGRAMFILES")
        || same_text(up, "PROGRAMFILES(X86)")
        || same_text(up, "PROGRAMW6432")
        || same_text(up, "COMMONPROGRAMFILES")
        || same_text(up, "COMMONPROGRAMFILES(X86)")
        || same_text(up, "COMMONPROGRAMW6432")
        || same_text(up, "VSINSTALLDIR")
        || same_text(up, "VCINSTALLDIR")
        || same_text(up, "VCTOOLSINSTALLDIR")
        || same_text(up, "VCTOOLSVERSION")
        || same_text(up, "VCTOOLSREDISTDIR")
        || same_text(up, "VCIDEINSTALLDIR")
        || same_text(up, "VISUALSTUDIOVERSION")
        || same_text(up, "DEVENVDIR")
        || same_text(up, "WINDOWSSDKDIR")
        || same_text(up, "WINDOWSSDKVERSION")
        || same_text(up, "WINDOWSSDKBINPATH")
        || same_text(up, "WINDOWSSDKVERBINPATH")
        || same_text(up, "WINDOWSLIBPATH")
        || same_text(up, "UCRTVERSION")
        || same_text(up, "UNIVERSALCRTSDKDIR")
        || same_text(up, "EXTENSIONSDKDIR")
        || same_text(up, "FRAMEWORKDIR")
        || same_text(up, "FRAMEWORKDIR64")
        || same_text(up, "FRAMEWORKVERSION")
        || same_text(up, "FRAMEWORKVERSION64")
        || same_text(up, "FRAMEWORK40VERSION")
        || same_text(up, "NETFXSDKDIR")
}

fn has_listed_name_prefix(up: &str) -> (r: bool)
    ensures
        r == has_listed_prefix(up@),
{
    starts_with(up, "VSCMD_") || starts_with(up, "__VSCMD") || starts_with(up, "WINDOWSSDK")
        || starts_with(up, "VCTOOLS") || starts_with(up, "FRAMEWORK")
}

/// Whether the variable `name` is sent when `extra` names further ones. Case
/// does not matter.
pub fn is_compiler_env(name: &str, extra: &Vec<String>) -> (r: bool)
    ensures
        r == is_sent(name@, texts(extra@)),
{
    let up = to_upper(name);
    if is_listed_name(up.as_str()) || has_listed_name_prefix(up.as_str()) {
        return true;
    }
    let mut i: usize = 0;
    while i < extra.len()
        invariant
            i <= extra@.len(),
            forall|j: int| 0 <= j < i ==> lower(#[trigger] texts(extra@)[j]) != lower(name@),
        decreases extra@.len() - i,
    {
        assert(texts(extra@)[i as int] == extra@[i as int]@);
        if same_ignoring_case(extra[i].as_str(), name) {
            return true;
        }
        i = i + 1;
    }
    false
}

/// The further names that an environment asks for.
pub fn passthrough_names(full: &Vec<(String, String)>) -> (r: Vec<String>)
    ensures
        texts(r@) == requested_names(env_texts(full@)),
{
    let mut i: usize = 0;
    let ghost env = env_texts(full@);
    assert(env.skip(0) == env);
    while i < full.len()
        invariant
            i <= full@.len(),
            env == env_texts(full@),
            requested_names(env) == requested_names(env.skip(i as int)),
        decreases full@.len() - i,
    {
        assert(env.skip(i as int).drop_first() == env.skip(i + 1));
        assert(env.skip(i as int)[0] == (full@[i as int].0@, full@[i as int].1@));
        if same_ignoring_case(full[i].0.as_str(), "SEMBAZURU_ENV_PASSTHROUGH") {
            return list_of(full[i].1.as_str(), ',');
        }
        i = i + 1;
    }
    let r: Vec<String> = Vec::new();
    assert(texts(r@) == Seq::<Seq<char>>::empty());
    r
}

/// An environment reduced to the variables that are sent.
pub fn filter_compiler_env(full: &Vec<(String, String)>) -> (r: Vec<(String, String)>)
    ensures
        env_texts(r@) == sent_vars(env_texts(full@), requested_names(env_texts(full@))),
{
    let extra = passthrough_names(full);
    let ghost env = env_texts(full@);
    let mut r: Vec<(String, String)> = Vec::new();
    let mut i: usize = 0;
    assert(env.take(0) == Seq::<(Seq<char>, Seq<char>)>::empty());
    assert(env_texts(r@) == sent_vars(env.take(0), texts(extra@)));
    while i < full.len()
        invariant
            i <= full@.len(),
            env == env_texts(full@),
            env_texts(r@) == sent_vars(env.take(i as int), texts(extra@)),
        decreases full@.len() - i,
    {
        let ghost now = env.take(i + 1);
        let ghost before = r@;
        assert(now.drop_last() == env.take(i as int));
        assert(now.last() == (full@[i as int].0@, full@[i as int].1@));
        if is_compiler_env(full[i].0.as_str(), &extra) {
            r.push((full[i].0.clone(), full[i].1.clone()));
            assert(env_texts(r@) == env_texts(before).push(now.last()));
        }
        i = i + 1;
    }
    assert(env.take(i as int) == env);
    r
}

proof fn lemma_upper_of_upper(c: char)
    ensures
        upper_char(upper_char(c)) == upper_char(c),
        lower_char(upper_char(c)) == lower_char(c),
{
}

/// The case of a name does not matter.
pub proof fn law_case_does_not_matter(a: Seq<char>, b: Seq<char>, extra: Seq<Seq<char>>)
    requires
        upper(a) == upper(b),
    ensures
        is_sent(a, extra) == is_sent(b, extra),
{
    assert(a.len() == upper(a).len() && b.len() == upper(b).len());
    assert forall|i: int| 0 <= i < a.len() implies lower_char(a[i]) == lower_char(b[i]) by {
        assert(upper(a)[i] == upper_char(a[i]) && upper(b)[i] == upper_char(b[i]));
        lemma_upper_of_upper(a[i]);
        lemma_upper_of_upper(b[i]);
    }
    assert(lower(a) =~= lower(b));
}

/// What is sent is exactly the allowed part of the environment: every variable
/// that is sent was there and is allowed, and every allowed one is sent.
pub proof fn law_only_allowed_variables_are_sent(
    env: Seq<(Seq<char>, Seq<char>)>,
    extra: Seq<Seq<char>>,
    v: (Seq<char>, Seq<char>),
)
    ensures
        sent_vars(env, extra).contains(v) <==> env.contains(v) && is_sent(v.0, extra),
    decreases env.len(),
{
    if env.len() > 0 {
        let init = env.drop_last();
        law_only_allowed_variables_are_sent(init, extra, v);
        let rest = sent_vars(init, extra);
        let all = sent_vars(env, extra);
        assert(env =~= init.push(env.last()));
        if env.contains(v) {
            let i = env.index_of(v);
            if i < init.len() {
                assert(init[i] == v);
            }
        }
        if init.contains(v) {
            let i = init.index_of(v);
            assert(env[i] == v);
        }
        if is_sent(env.last().0, extra) {
            assert(all[rest.len() as int] == env.last());
            if rest.contains(v) {
                let i = rest.index_of(v);
                assert(all[i] == v);
            }
            if all.contains(v) {
                let i = all.index_of(v);
                if i < rest.len() {
                    assert(rest[i] == v);
                }
            }
        }
        if v == env.last() {
            assert(env[env.len() - 1] == v);
        }
    }
}

/// Filtering a second time with the same further names changes nothing.
pub proof fn law_filtering_twice_is_filtering_once(
    env: Seq<(Seq<char>, Seq<char>)>,
    extra: Seq<Seq<char>>,
)
    ensures
        sent_vars(sent_vars(env, extra), extra) == sent_vars(env, extra),
    decreases env.len(),
{
    if env.len() > 0 {
        law_filtering_twice_is_filtering_once(env.drop_last(), extra);
        let rest = sent_vars(env.drop_last(), extra);
        if is_sent(env.last().0, extra) {
            assert(rest.push(env.last()).drop_last() =~= rest);
        }
    }
}

/// The names of the variables that a compiler, its linker and the tools around them go by.
pub open spec fn toolchain_names() -> Seq<Seq<char>> {
    seq![
        "PATH"@,
        "INCLUDE"@,
        "LIB"@,
        "LIBPATH"@,
        "CL"@,
        "_CL_"@,
        "CC"@,
        "CXX"@,
        "TMP"@,
        "TEMP"@,
        "SYSTEMROOT"@,
        "SYSTEMDRIVE"@,
        "WINDIR"@,
        "COMSPEC"@,
        "PATHEXT"@,
        "OS"@,
        "NUMBER_OF_PROCESSORS"@,
        "PROCESSOR_ARCHITECTURE"@,
        "PROCESSOR_ARCHITEW6432"@,
        "PROCESSOR_IDENTIFIER"@,
        "PROCESSOR_LEVEL"@,
        "PROCESSOR_REVISION"@,
        "PROGRAMDATA"@,
        "PROGRAMFILES"@,
        "PROGRAMFILES(X86)"@,
        "PROGRAMW6432"@,
        "COMMONPROGRAMFILES"@,
        "COMMONPROGRAMFILES(X86)"@,
        "COMMONPROGRAMW6432"@,
        "VSINSTALLDIR"@,
        "VCINSTALLDIR"@,
        "VCTOOLSINSTALLDIR"@,
        "VCTOOLSVERSION"@,
        "VCTOOLSREDISTDIR"@,
        "VCIDEINSTALLDIR"@,
        "VISUALSTUDIOVERSION"@,
        "DEVENVDIR"@,
        "WINDOWSSDKDIR"@,
        "WINDOWSSDKVERSION"@,
        "WINDOWSSDKBINPATH"@,
        "WINDOWSSDKVERBINPATH"@,
        "WINDOWSLIBPATH"@,
        "UCRTVERSION"@,
        "UNIVERSALCRTSDKDIR"@,
        "EXTENSIONSDKDIR"@,
        "FRAMEWORKDIR"@,
        "FRAMEWORKDIR64"@,
        "FRAMEWORKVERSION"@,
        "FRAMEWORKVERSION64"@,
        "FRAMEWORK40VERSION"@,
        "NETFXSDKDIR"@,
    ]
}

/// What is sent: a variable that the toolchain goes by, one of the families `VSCMD_`,
/// `__VSCMD`, `WINDOWSSDK`, `VCTOOLS` and `FRAMEWORK`, or one that was asked for, each in
/// whatever case; and nothing else.
pub proof fn law_the_toolchain_gets_its_variables(name: Seq<char>, extra: Seq<Seq<char>>)
    ensures
        is_sent(name, extra) <==> {
            ||| toolchain_names().contains(upper(name))
            ||| "VSCMD_"@.is_prefix_of(upper(name)) || "__VSCMD"@.is_prefix_of(upper(name))
            ||| "WINDOWSSDK"@.is_prefix_of(upper(name)) || "VCTOOLS"@.is_prefix_of(upper(name))
            ||| "FRAMEWORK"@.is_prefix_of(upper(name))
            ||| exists|i: int| 0 <= i < extra.len() && lower(#[trigger] extra[i]) == lower(name)
        },
{
    let up = upper(name);
    let all = toolchain_names();
    if all.contains(up) {
        let i = choose|i: int| 0 <= i < all.len() && all[i] == up;
    }
    if is_listed(up) {
        assert(all[0] == "PATH"@);
        assert(all[1] == "INCLUDE"@);
        assert(all[2] == "LIB"@);
        assert(all[3] == "LIBPATH"@);
        assert(all[4] == "CL"@);
        assert(all[5] == "_CL_"@);
        assert(all[6] == "CC"@);
        assert(all[7] == "CXX"@);
        assert(all[8] == "TMP"@);
        assert(all[9] == "TEMP"@);
        assert(all[10] == "SYSTEMROOT"@);
        assert(all[11] == "SYSTEMDRIVE"@);
        assert(all[12] == "WINDIR"@);
        assert(all[13] == "COMSPEC"@);
        assert(all[14] == "PATHEXT"@);
        assert(all[15] == "OS"@);
        assert(all[16] == "NUMBER_OF_PROCESSORS"@);
        assert(all[17] == "PROCESSOR_ARCHITECTURE"@);
        assert(all[18] == "PROCESSOR_ARCHITEW6432"@);
        assert(all[19] == "PROCESSOR_IDENTIFIER"@);
        assert(all[20] == "PROCESSOR_LEVEL"@);
        assert(all[21] == "PROCESSOR_REVISION"@);
        assert(all[22] == "PROGRAMDATA"@);
        assert(all[23] == "PROGRAMFILES"@);
        assert(all[24] == "PROGRAMFILES(X86)"@);
        assert(all[25] == "PROGRAMW6432"@);
        assert(all[26] == "COMMONPROGRAMFILES"@);
        assert(all[27] == "COMMONPROGRAMFILES(X86)"@);
        assert(all[28] == "COMMONPROGRAMW6432"@);
        assert(all[29] == "VSINSTALLDIR"@);
        assert(all[30] == "VCINSTALLDIR"@);
        assert(all[31] == "VCTOOLSINSTALLDIR"@);
        assert(all[32] == "VCTOOLSVERSION"@);
        assert(all[33] == "VCTOOLSREDISTDIR"@);
        assert(all[34] == "VCIDEINSTALLDIR"@);
        assert(all[35] == "VISUALSTUDIOVERSION"@);
        assert(all[36] == "DEVENVDIR"@);
        assert(all[37] == "WINDOWSSDKDIR"@);
        assert(all[38] == "WINDOWSSDKVERSION"@);
        assert(all[39] == "WINDOWSSDKBINPATH"@);
        assert(all[40] == "WINDOWSSDKVERBINPATH"@);
        assert(all[41] == "WINDOWSLIBPATH"@);
        assert(all[42] == "UCRTVERSION"@);
        assert(all[43] == "UNIVERSALCRTSDKDIR"@);
        assert(all[44] == "EXTENSIONSDKDIR"@);
        assert(all[45] == "FRAMEWORKDIR"@);
        assert(all[46] == "FRAMEWORKDIR64"@);
        assert(all[47] == "FRAMEWORKVERSION"@);
        assert(all[48] == "FRAMEWORKVERSION64"@);
        assert(all[49] == "FRAMEWORK40VERSION"@);
        assert(all[50] == "NETFXSDKDIR"@);
    }
}

/// What is sent keeps its order, and each variable as often as it was there.
pub proof fn law_sent_variables_keep_their_order(
    env: Seq<(Seq<char>, Seq<char>)>,
    extra: Seq<Seq<char>>,
)
    ensures
        sent_vars(env, extra) == env.filter(|v: (Seq<char>, Seq<char>)| is_sent(v.0, extra)),
    decreases env.len(),
{
    reveal(Seq::filter);
    if env.len() > 0 {
        law_sent_variables_keep_their_order(env.drop_last(), extra);
    }
}

/// Further names come from the first variable that is called `SEMBAZURU_ENV_PASSTHROUGH`,
/// in whatever case: its value at the commas, trimmed, without the empty ones. Without such
/// a variable there are none.
pub proof fn law_further_names_come_from_one_variable(env: Seq<(Seq<char>, Seq<char>)>, i: int)
    requires
        0 <= i <= env.len(),
        forall|j: int|
            0 <= j < i ==> lower((#[trigger] env[j]).0) != lower("SEMBAZURU_ENV_PASSTHROUGH"@),
        i < env.len() ==> lower(env[i].0) == lower("SEMBAZURU_ENV_PASSTHROUGH"@),
    ensures
        requested_names(env) == if i < env.len() {
            split_list(env[i].1, ',')
        } else {
            Seq::empty()
        },
    decreases env.len(),
{
    if i > 0 {
        let rest = env.drop_first();
        assert forall|j: int| 0 <= j < i - 1 implies lower((#[trigger] rest[j]).0) != lower(
            "SEMBAZURU_ENV_PASSTHROUGH"@,
        ) by {
            assert(rest[j] == env[j + 1]);
        }
        assert(lower(env[0].0) != lower("SEMBAZURU_ENV_PASSTHROUGH"@));
        law_further_names_come_from_one_variable(rest, i - 1);
    }
}

} // verus!
