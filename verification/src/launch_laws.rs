//! What running a command promises: its environment, its program, what is refused, and
//! how its end is told.

use vstd::prelude::*;
use vstd::utf8::encode_utf8;

use crate::bytes::{absolute_from, byte_views};
use crate::launch::{
    after_child, after_look, code_of, env_lines, env_pairs, failure_message, first_with_prefix,
    found_in, is_white, override_views, pair_views, preparation_error, program_path, refusal,
    request_error, sets, threads_in, trimmed_back, trimmed_front, Blame, ChildAction, ChildEvent,
    ChildFailure, ExecError, ExecErrorView, ExecRequest, Place, ThreadCountError,
    ThreadCountErrorView, Timeout, WaitAction, WaitActionView, WaitEvent, WorkingDirectory,
};
use crate::path::below;
use crate::path_laws::lemma_same_filter;
use crate::text::{bounded_number, decimal, opt_text, pieces, texts};

verus! {

/// What a list of variables holds is seen as it is, and the variables that are set
/// anew are seen by their bytes.
pub proof fn lemma_variables_are_seen(
    inherited: Seq<(Vec<u8>, Vec<u8>)>,
    overrides: Option<Vec<(String, String)>>,
)
    ensures
        pair_views(inherited).len() == inherited.len(),
        forall|i: int|
            0 <= i < inherited.len() ==> (#[trigger] pair_views(inherited)[i]).0 == inherited[i].0@
                && pair_views(inherited)[i].1 == inherited[i].1@,
        overrides is None ==> override_views(overrides).len() == 0,
        overrides matches Some(v) ==> override_views(overrides).len() == v@.len() && forall|i: int|
            0 <= i < v@.len() ==> (#[trigger] override_views(overrides)[i]).0 == encode_utf8(
                v@[i].0@,
            ) && override_views(overrides)[i].1 == encode_utf8(v@[i].1@),
{
}

/// The environment of a child, entry by entry: the variables that are inherited and
/// whose names no variable that is set anew has, and then those that are set anew, all
/// in order, each written as its name, an equals sign and its value; an entry with a
/// null byte is left out.
pub proof fn lemma_environment(
    inherited: Seq<(Seq<u8>, Seq<u8>)>,
    overrides: Seq<(Seq<u8>, Seq<u8>)>,
)
    ensures
        env_lines(env_pairs(inherited, overrides)) == (inherited.filter(
            |p: (Seq<u8>, Seq<u8>)|
                forall|i: int| 0 <= i < overrides.len() ==> (#[trigger] overrides[i]).0 != p.0,
        ) + overrides).map_values(|p: (Seq<u8>, Seq<u8>)| p.0 + seq![61u8] + p.1).filter(
            |line: Seq<u8>| !line.contains(0u8),
        ),
{
    let keep = |p: (Seq<u8>, Seq<u8>)|
        forall|i: int| 0 <= i < overrides.len() ==> (#[trigger] overrides[i]).0 != p.0;
    let kept = |p: (Seq<u8>, Seq<u8>)| !sets(overrides, p.0);
    assert forall|p: (Seq<u8>, Seq<u8>)| #[trigger] kept(p) == keep(p) by {
        if sets(overrides, p.0) {
            let i = choose|i: int| 0 <= i < overrides.len() && (#[trigger] overrides[i]).0 == p.0;
            assert(overrides[i].0 == p.0);
        }
    }
    lemma_same_filter(inherited, kept, keep);
    lemma_lines(env_pairs(inherited, overrides));
}

proof fn lemma_lines(pairs: Seq<(Seq<u8>, Seq<u8>)>)
    ensures
        env_lines(pairs) == pairs.map_values(
            |p: (Seq<u8>, Seq<u8>)| p.0 + seq![61u8] + p.1,
        ).filter(|line: Seq<u8>| !line.contains(0u8)),
    decreases pairs.len(),
{
    let view = |p: (Seq<u8>, Seq<u8>)| p.0 + seq![61u8] + p.1;
    let keep = |line: Seq<u8>| !line.contains(0u8);
    reveal(Seq::filter);
    if pairs.len() == 0 {
        assert(pairs.map_values(view) =~= Seq::empty());
        assert(env_lines(pairs) =~= pairs.map_values(view).filter(keep));
    } else {
        let less = pairs.drop_last();
        lemma_lines(less);
        assert(pairs.map_values(view).drop_last() =~= less.map_values(view));
        assert(pairs.map_values(view).last() == view(pairs.last()));
        assert(pairs.last().0.push(61u8) + pairs.last().1 =~= view(pairs.last()));
    }
}

/// An inherited variable reaches the child unless a variable that is set anew has
/// exactly its name; variables whose names are only alike do not matter.
pub proof fn lemma_inherited_unless_set_anew(
    inherited: Seq<(Seq<u8>, Seq<u8>)>,
    overrides: Seq<(Seq<u8>, Seq<u8>)>,
    key: Seq<u8>,
    value: Seq<u8>,
)
    requires
        inherited.contains((key, value)),
        forall|i: int| 0 <= i < overrides.len() ==> (#[trigger] overrides[i]).0 != key,
        !key.contains(0u8),
        !value.contains(0u8),
    ensures
        env_lines(env_pairs(inherited, overrides)).contains(key + seq![61u8] + value),
{
    let keep = |p: (Seq<u8>, Seq<u8>)|
        forall|i: int| 0 <= i < overrides.len() ==> (#[trigger] overrides[i]).0 != p.0;
    let view = |p: (Seq<u8>, Seq<u8>)| p.0 + seq![61u8] + p.1;
    let clean = |line: Seq<u8>| !line.contains(0u8);
    lemma_environment(inherited, overrides);
    let k = inherited.index_of((key, value));
    inherited.lemma_filter_contains(keep, k);
    let pairs = inherited.filter(keep) + overrides;
    let m = inherited.filter(keep).index_of((key, value));
    assert(pairs[m] == (key, value));
    let lines = pairs.map_values(view);
    assert(lines[m] == key + seq![61u8] + value);
    assert(!lines[m].contains(0u8)) by {
        if lines[m].contains(0u8) {
            let i = lines[m].index_of(0u8);
            if i < key.len() {
                assert(key[i] == 0u8);
            } else if i > key.len() {
                assert(value[i - key.len() - 1] == 0u8);
            }
        }
    }
    lines.lemma_filter_contains(clean, m);
}

/// A variable that is set anew reaches the child with its new value, and not with the
/// one that is inherited.
pub proof fn lemma_set_anew(
    inherited: Seq<(Seq<u8>, Seq<u8>)>,
    overrides: Seq<(Seq<u8>, Seq<u8>)>,
    key: Seq<u8>,
    value: Seq<u8>,
)
    requires
        overrides.contains((key, value)),
        !key.contains(0u8),
        !value.contains(0u8),
    ensures
        env_lines(env_pairs(inherited, overrides)).contains(key + seq![61u8] + value),
{
    let keep = |p: (Seq<u8>, Seq<u8>)|
        forall|i: int| 0 <= i < overrides.len() ==> (#[trigger] overrides[i]).0 != p.0;
    let view = |p: (Seq<u8>, Seq<u8>)| p.0 + seq![61u8] + p.1;
    let clean = |line: Seq<u8>| !line.contains(0u8);
    lemma_environment(inherited, overrides);
    let pairs = inherited.filter(keep) + overrides;
    let m = inherited.filter(keep).len() + overrides.index_of((key, value));
    assert(pairs[m] == (key, value));
    let lines = pairs.map_values(view);
    assert(lines[m] == key + seq![61u8] + value);
    assert(!lines[m].contains(0u8)) by {
        if lines[m].contains(0u8) {
            let i = lines[m].index_of(0u8);
            if i < key.len() {
                assert(key[i] == 0u8);
            } else if i > key.len() {
                assert(value[i - key.len() - 1] == 0u8);
            }
        }
    }
    lines.lemma_filter_contains(clean, m);
}

/// A request is refused first for want of a command, then for its timeout, then for
/// threads that could not be counted, then for more than 32 of them; any other one is
/// accepted.
pub proof fn lemma_refusals(
    command: Seq<Seq<char>>,
    timeout: Timeout,
    threads: Option<Result<usize, ThreadCountError>>,
)
    ensures
        command.len() == 0 ==> refusal(command, timeout, threads) == Some(
            ExecErrorView::EmptyCommand,
        ),
        command.len() > 0 ==> (timeout matches Timeout::Bad(shown) ==> refusal(
            command,
            timeout,
            threads,
        ) == Some(ExecErrorView::BadTimeout(shown@))),
        command.len() > 0 && !(timeout is Bad) ==> {
            &&& threads is None ==> refusal(command, timeout, threads) is None
            &&& threads matches Some(counted) ==> {
                &&& counted matches Err(e) ==> refusal(command, timeout, threads) == Some(
                    ExecErrorView::ThreadsUnknown(e@),
                )
                &&& counted matches Ok(n) ==> if n <= 32 {
                    refusal(command, timeout, threads) is None
                } else {
                    refusal(command, timeout, threads) == Some(ExecErrorView::TooManyThreads(n))
                }
            }
        },
{
}

/// The characters that are white space.
pub proof fn lemma_white_space(c: char)
    ensures
        is_white(c) <==> seq![
            '\t',
            '\n',
            '\u{b}',
            '\u{c}',
            '\r',
            ' ',
            '\u{85}',
            '\u{a0}',
            '\u{1680}',
            '\u{2000}',
            '\u{2001}',
            '\u{2002}',
            '\u{2003}',
            '\u{2004}',
            '\u{2005}',
            '\u{2006}',
            '\u{2007}',
            '\u{2008}',
            '\u{2009}',
            '\u{200a}',
            '\u{2028}',
            '\u{2029}',
            '\u{202f}',
            '\u{205f}',
            '\u{3000}',
        ].contains(c),
{
    let all = seq![
        '\t',
        '\n',
        '\u{b}',
        '\u{c}',
        '\r',
        ' ',
        '\u{85}',
        '\u{a0}',
        '\u{1680}',
        '\u{2000}',
        '\u{2001}',
        '\u{2002}',
        '\u{2003}',
        '\u{2004}',
        '\u{2005}',
        '\u{2006}',
        '\u{2007}',
        '\u{2008}',
        '\u{2009}',
        '\u{200a}',
        '\u{2028}',
        '\u{2029}',
        '\u{202f}',
        '\u{205f}',
        '\u{3000}',
    ];
    assert(all[0] == '\t' && all[1] == '\n' && all[2] == '\u{b}' && all[3] == '\u{c}' && all[4]
        == '\r' && all[5] == ' ' && all[6] == '\u{85}' && all[7] == '\u{a0}' && all[8] == '\u{1680}'
        && all[9] == '\u{2000}' && all[10] == '\u{2001}' && all[11] == '\u{2002}' && all[12]
        == '\u{2003}' && all[13] == '\u{2004}' && all[14] == '\u{2005}' && all[15] == '\u{2006}'
        && all[16] == '\u{2007}' && all[17] == '\u{2008}' && all[18] == '\u{2009}' && all[19]
        == '\u{200a}' && all[20] == '\u{2028}' && all[21] == '\u{2029}' && all[22] == '\u{202f}'
        && all[23] == '\u{205f}' && all[24] == '\u{3000}');
}

proof fn lemma_front(t: Seq<char>) -> (n: int)
    ensures
        0 <= n <= t.len(),
        trimmed_front(t) == t.skip(n),
        forall|i: int| 0 <= i < n ==> is_white(#[trigger] t[i]),
        n < t.len() ==> !is_white(t[n]),
    decreases t.len(),
{
    if t.len() > 0 && is_white(t[0]) {
        let rest = t.drop_first();
        let n = lemma_front(rest) + 1;
        assert(rest.skip(n - 1) =~= t.skip(n));
        assert forall|i: int| 0 <= i < n implies is_white(#[trigger] t[i]) by {
            if i > 0 {
                assert(t[i] == rest[i - 1]);
            }
        }
        if n < t.len() {
            assert(t[n] == rest[n - 1]);
        }
        n
    } else {
        assert(t.skip(0) =~= t);
        0
    }
}

proof fn lemma_back(t: Seq<char>) -> (n: int)
    ensures
        0 <= n <= t.len(),
        trimmed_back(t) == t.take(n),
        forall|i: int| n <= i < t.len() ==> is_white(#[trigger] t[i]),
        n > 0 ==> !is_white(t[n - 1]),
    decreases t.len(),
{
    if t.len() > 0 && is_white(t.last()) {
        let rest = t.drop_last();
        let n = lemma_back(rest);
        assert(rest.take(n) =~= t.take(n));
        assert forall|i: int| n <= i < t.len() implies is_white(#[trigger] t[i]) by {
            if i < rest.len() {
                assert(t[i] == rest[i]);
            }
        }
        n
    } else {
        assert(t.take(t.len() as int) =~= t);
        t.len() as int
    }
}

/// Trimming takes away white space in front and behind, all of it and nothing else.
pub proof fn lemma_trimmed(t: Seq<char>) -> (r: (int, int))
    ensures
        0 <= r.0 <= r.1 <= t.len(),
        trimmed_back(trimmed_front(t)) == t.subrange(r.0, r.1),
        forall|i: int| 0 <= i < r.0 || r.1 <= i < t.len() ==> is_white(#[trigger] t[i]),
        r.0 < r.1 ==> !is_white(t[r.0]) && !is_white(t[r.1 - 1]),
{
    let a = lemma_front(t);
    let front = t.skip(a);
    let n = lemma_back(front);
    let b = a + n;
    assert(front.take(n) =~= t.subrange(a, b));
    assert forall|i: int| 0 <= i < a || b <= i < t.len() implies is_white(#[trigger] t[i]) by {
        if i >= b {
            assert(front[i - a] == t[i]);
        }
    }
    if n > 0 {
        assert(front[n - 1] == t[b - 1]);
        if a < t.len() {
            assert(t[a] == front[0]);
        }
    }
    (a, b)
}

/// The number of threads stands in the first line of a status that begins with
/// `Threads:`, with white space round it; a status without such a line does not tell
/// it.
pub proof fn lemma_threads(status: Seq<char>, i: int, rest: Seq<char>)
    requires
        0 <= i <= pieces(status, '\n').len(),
        forall|j: int|
            0 <= j < i ==> !"Threads:"@.is_prefix_of(#[trigger] pieces(status, '\n')[j]),
    ensures
        i == pieces(status, '\n').len() ==> threads_in(status) == Err::<nat, ThreadCountErrorView>(
            ThreadCountErrorView::NoField,
        ),
        i < pieces(status, '\n').len() && pieces(status, '\n')[i] == "Threads:"@ + rest
            ==> threads_in(status) == match bounded_number(
            trimmed_back(trimmed_front(rest)),
            usize::MAX as nat,
        ) {
            Some(n) => Ok::<nat, ThreadCountErrorView>(n),
            None => Err(ThreadCountErrorView::Unparsable),
        },
{
    lemma_first_line(pieces(status, '\n'), "Threads:"@, i, rest);
}

proof fn lemma_first_line(lines: Seq<Seq<char>>, prefix: Seq<char>, i: int, rest: Seq<char>)
    requires
        0 <= i <= lines.len(),
        forall|j: int| 0 <= j < i ==> !prefix.is_prefix_of(#[trigger] lines[j]),
    ensures
        i == lines.len() ==> first_with_prefix(lines, prefix) is None,
        i < lines.len() && lines[i] == prefix + rest ==> first_with_prefix(lines, prefix) == Some(
            rest,
        ),
    decreases lines.len(),
{
    if i > 0 {
        let more = lines.drop_first();
        assert forall|j: int| 0 <= j < i - 1 implies !prefix.is_prefix_of(#[trigger] more[j]) by {
            assert(more[j] == lines[j + 1]);
        }
        lemma_first_line(more, prefix, i - 1, rest);
        assert(!prefix.is_prefix_of(lines[0]));
        if i < lines.len() {
            assert(more[i - 1] == lines[i]);
        }
    } else if lines.len() > 0 && lines[0] == prefix + rest {
        assert(lines[0].take(prefix.len() as int) =~= prefix);
        assert(lines[0].skip(prefix.len() as int) =~= rest);
    }
}

/// Where a program is: a name with a slash must be known to exist and is meant as it
/// is; any other one is taken from the first directory of `PATH` that has a file of
/// that name. Either is seen from the current directory.
pub proof fn lemma_where_a_program_is(
    program: Seq<char>,
    path_var: Option<Seq<char>>,
    current_dir: Seq<u8>,
    present: Map<Seq<char>, Place>,
    i: int,
)
    ensures
        program.contains('/') && present.contains_key(program) && present[program].exists
            ==> program_path(program, path_var, current_dir, present) == Ok::<
            Seq<u8>,
            ExecErrorView,
        >(absolute_from(current_dir, program)),
        program.contains('/') && present.contains_key(program) && !present[program].exists
            ==> program_path(program, path_var, current_dir, present) == Err::<
            Seq<u8>,
            ExecErrorView,
        >(ExecErrorView::ProgramNotFound(program)),
        program.contains('/') && !present.contains_key(program) ==> program_path(
            program,
            path_var,
            current_dir,
            present,
        ) == Err::<Seq<u8>, ExecErrorView>(ExecErrorView::ProbeNeeded(program)),
        !program.contains('/') && path_var is None ==> program_path(
            program,
            path_var,
            current_dir,
            present,
        ) == Err::<Seq<u8>, ExecErrorView>(ExecErrorView::NotInPath(program)),
        !program.contains('/') ==> (path_var matches Some(path) ==> {
            let dirs = pieces(path, ':');
            0 <= i <= dirs.len() && (forall|j: int|
                0 <= j < i ==> present.contains_key(below(#[trigger] dirs[j], program))
                    && !present[below(dirs[j], program)].is_file) ==> {
                &&& i == dirs.len() ==> program_path(program, path_var, current_dir, present)
                    == Err::<Seq<u8>, ExecErrorView>(ExecErrorView::NotInPath(program))
                &&& i < dirs.len() && !present.contains_key(below(dirs[i], program))
                    ==> program_path(program, path_var, current_dir, present) == Err::<
                    Seq<u8>,
                    ExecErrorView,
                >(ExecErrorView::ProbeNeeded(below(dirs[i], program)))
                &&& i < dirs.len() && present.contains_key(below(dirs[i], program))
                    && present[below(dirs[i], program)].is_file ==> program_path(
                    program,
                    path_var,
                    current_dir,
                    present,
                ) == Ok::<Seq<u8>, ExecErrorView>(
                    absolute_from(current_dir, below(dirs[i], program)),
                )
            }
        }),
{
    if !program.contains('/') {
        if let Some(path) = path_var {
            let dirs = pieces(path, ':');
            if 0 <= i <= dirs.len() && (forall|j: int|
                0 <= j < i ==> present.contains_key(below(#[trigger] dirs[j], program))
                    && !present[below(dirs[j], program)].is_file) {
                lemma_search(program, dirs, i, present);
            }
        }
    }
}

proof fn lemma_search(
    program: Seq<char>,
    dirs: Seq<Seq<char>>,
    i: int,
    present: Map<Seq<char>, Place>,
)
    requires
        0 <= i <= dirs.len(),
        forall|j: int|
            0 <= j < i ==> present.contains_key(below(#[trigger] dirs[j], program))
                && !present[below(dirs[j], program)].is_file,
    ensures
        i == dirs.len() ==> found_in(program, dirs, present) == Err::<Seq<char>, ExecErrorView>(
            ExecErrorView::NotInPath(program),
        ),
        i < dirs.len() && !present.contains_key(below(dirs[i], program)) ==> found_in(
            program,
            dirs,
            present,
        ) == Err::<Seq<char>, ExecErrorView>(ExecErrorView::ProbeNeeded(below(dirs[i], program))),
        i < dirs.len() && present.contains_key(below(dirs[i], program)) && present[below(
            dirs[i],
            program,
        )].is_file ==> found_in(program, dirs, present) == Ok::<Seq<char>, ExecErrorView>(
            below(dirs[i], program),
        ),
    decreases dirs.len(),
{
    if i > 0 {
        let rest = dirs.drop_first();
        assert forall|j: int| 0 <= j < i - 1 implies present.contains_key(
            below(#[trigger] rest[j], program),
        ) && !present[below(rest[j], program)].is_file by {
            assert(rest[j] == dirs[j + 1]);
        }
        lemma_search(program, rest, i - 1, present);
        assert(present.contains_key(below(dirs[0], program)));
        if i < dirs.len() {
            assert(rest[i - 1] == dirs[i]);
        }
    }
}

/// A program in a directory: the directory, a slash unless it ends in one or is empty,
/// and the program.
pub proof fn lemma_program_in_directory(dir: Seq<char>, program: Seq<char>)
    ensures
        dir.len() == 0 ==> below(dir, program) == program,
        dir.len() > 0 && dir.last() == '/' ==> below(dir, program) == dir + program,
        dir.len() > 0 && dir.last() != '/' ==> below(dir, program) == dir.push('/') + program,
{
    reveal_strlit("/");
    assert("/"@ =~= seq!['/']);
    assert(dir + "/"@ + program =~= dir.push('/') + program);
    if dir.len() == 0 {
        assert(dir + program =~= program);
    }
}

/// What a path means in a directory: itself where it begins with a slash, and
/// otherwise the directory, a slash unless it ends in one or is empty, and the path.
pub proof fn lemma_seen_from(current_dir: Seq<u8>, path: Seq<char>)
    ensures
        path.len() > 0 && path[0] == '/' ==> absolute_from(current_dir, path) == encode_utf8(path),
        path.len() == 0 || path[0] != '/' ==> absolute_from(current_dir, path) == (
        if current_dir.len() == 0 || current_dir.last() == 47 {
            current_dir
        } else {
            current_dir.push(47u8)
        }) + encode_utf8(path),
        current_dir.len() > 0 && current_dir[0] == 47 ==> absolute_from(current_dir, path).len() > 0
            && absolute_from(current_dir, path)[0] == 47,
{
    if current_dir.len() > 0 && current_dir[0] == 47 {
        crate::bytes::lemma_absolute_from(current_dir, path);
    }
}

/// What keeps a command from being run, once its program is found, in this order: a
/// null byte in the program's path, in one of the arguments, a working directory that
/// cannot be resolved, and a null byte in it.
pub proof fn lemma_preparation(
    command: Seq<Seq<char>>,
    path: Seq<u8>,
    cwd: Option<WorkingDirectory>,
    e: ExecErrorView,
)
    ensures
        preparation_error(command, Err(e), cwd) == Some(e),
        path.contains(0u8) ==> preparation_error(command, Ok(path), cwd) == Some(
            ExecErrorView::ProgramNul,
        ),
        !path.contains(0u8) && (exists|i: int|
            0 <= i < command.len() && (#[trigger] command[i]).contains('\0'))
            ==> preparation_error(command, Ok(path), cwd) == Some(ExecErrorView::ArgumentNul),
        !path.contains(0u8) && (forall|i: int|
            0 <= i < command.len() ==> !(#[trigger] command[i]).contains('\0')) ==> match cwd {
            None => preparation_error(command, Ok(path), cwd) is None,
            Some(wanted) => match wanted.resolved {
                Err(reason) => preparation_error(command, Ok(path), cwd) == Some(
                    ExecErrorView::NoWorkingDirectory { dir: wanted.dir@, reason: reason@ },
                ),
                Ok(dir) => if dir@.contains(0u8) {
                    preparation_error(command, Ok(path), cwd) == Some(
                        ExecErrorView::WorkingDirectoryNul,
                    )
                } else {
                    preparation_error(command, Ok(path), cwd) is None
                },
            },
        },
{
    if exists|i: int| 0 <= i < command.len() && (#[trigger] command[i]).contains('\0') {
        let i = choose|i: int| 0 <= i < command.len() && (#[trigger] command[i]).contains('\0');
        assert(crate::launch::has_nul(command[i]));
    } else {
        assert forall|i: int| 0 <= i < command.len() implies !crate::launch::has_nul(
            #[trigger] command[i],
        ) by {
            assert(!command[i].contains('\0'));
        }
    }
}

/// A request is checked before its program is looked for.
pub proof fn lemma_request(request: ExecRequest, present: Map<Seq<char>, Place>)
    ensures
        refusal(texts(request.command@), request.timeout, request.threads) matches Some(e)
            ==> request_error(request, present) == Some(e),
        refusal(texts(request.command@), request.timeout, request.threads) is None ==> request_error(
            request,
            present,
        ) == preparation_error(
            texts(request.command@),
            program_path(
                request.command@[0]@,
                opt_text(request.path_var),
                request.current_dir@,
                present,
            ),
            request.cwd,
        ),
{
    lemma_refusals(texts(request.command@), request.timeout, request.threads);
    if request.command@.len() > 0 {
        assert(texts(request.command@)[0] == request.command@[0]@);
    } else {
        assert(texts(request.command@).len() == 0);
    }
}

/// What a child does next: redirect its output, change its directory if it has one,
/// apply the sandbox, execute the program; whatever fails is what it gives up on.
pub proof fn lemma_child_steps(has_cwd: bool, event: ChildEvent)
    ensures
        event is Forked ==> after_child(has_cwd, event) is Redirect,
        event is Redirected && has_cwd ==> after_child(has_cwd, event) is Chdir,
        event is Redirected && !has_cwd ==> after_child(has_cwd, event) is ApplySandbox,
        event is Moved ==> after_child(has_cwd, event) is ApplySandbox,
        event is Sandboxed ==> after_child(has_cwd, event) is Exec,
        event is NotMoved ==> after_child(has_cwd, event) == ChildAction::GiveUp(
            ChildFailure::Chdir,
        ),
        event matches ChildEvent::NotSandboxed(m) ==> after_child(has_cwd, event)
            == ChildAction::GiveUp(ChildFailure::Sandbox(m)),
        event matches ChildEvent::NotExecuted(m) ==> after_child(has_cwd, event)
            == ChildAction::GiveUp(ChildFailure::Exec(m)),
{
}

/// What a child that gives up says.
pub proof fn lemma_child_says(failure: ChildFailure)
    ensures
        failure is Chdir ==> failure_message(failure) == "nono: failed to chdir\n"@,
        failure matches ChildFailure::Sandbox(m) ==> failure_message(failure)
            == "nono: sandbox apply failed: "@ + m@ + "\n"@,
        failure matches ChildFailure::Exec(m) ==> failure_message(failure)
            == "nono: exec failed: "@ + m@ + "\n"@,
{
}

/// How the end of a child is told by its wait status: with low bits 0 it exited with
/// the code in the next bits, with all of them set it has not ended, and otherwise they
/// are the signal that ended it, which is told by its negated number.
pub proof fn lemma_exit_codes(status: i32)
    ensures
        status & 0x7f == 0 ==> code_of(status) == Ok::<int, ExecErrorView>(
            ((status >> 8) & 0xff) as int,
        ),
        status & 0x7f == 0x7f ==> code_of(status) == Err::<int, ExecErrorView>(
            ExecErrorView::UnexpectedStatus,
        ),
        status & 0x7f != 0 && status & 0x7f != 0x7f ==> code_of(status) == Ok::<int, ExecErrorView>(
            -(status & 0x7f),
        ),
{
    assert(0 <= status & 0x7f <= 127) by (bit_vector);
}

/// What is done after a look at a child: one that ended is told by its status, one
/// that runs is waited for in short sleeps until its time is over and then killed, an
/// interrupted look is repeated, and one that failed is an error.
pub proof fn lemma_looks(event: WaitEvent, overdue: bool)
    ensures
        event is Interrupted ==> after_look(event, overdue) is LookAgain,
        event is Running && !overdue ==> after_look(event, overdue) == WaitActionView::Sleep(10),
        event is Running && overdue ==> after_look(event, overdue) == WaitActionView::Kill(124),
        event matches WaitEvent::Failed(m) ==> after_look(event, overdue) == WaitActionView::Fail(
            ExecErrorView::WaitFailed(m@),
        ),
        event matches WaitEvent::Ended(status) ==> match code_of(status) {
            Ok(code) => after_look(event, overdue) == WaitActionView::Finish(code),
            Err(e) => after_look(event, overdue) == WaitActionView::Fail(e),
        },
{
}

/// What each error says, and whose mistake it is.
pub proof fn lemma_exec_errors(e: ExecError)
    ensures
        e is EmptyCommand ==> e@.message() == "command must not be empty"@,
        e matches ExecError::BadTimeout(t) ==> e@.message()
            == "timeout_secs must be non-negative, got "@ + t@,
        e matches ExecError::TooManyThreads(n) ==> e@.message() == "Too many threads ("@ + decimal(
            n as nat,
        ) + ") for safe fork. Reduce thread count before calling sandboxed_exec."@,
        e matches ExecError::ThreadsUnknown(ThreadCountError::Unreadable(m)) ==> e@.message()
            == "Failed to check thread count: "@ + ("Cannot read /proc/self/status: "@ + m@),
        e matches ExecError::ThreadsUnknown(ThreadCountError::Unparsable) ==> e@.message()
            == "Failed to check thread count: "@ + "Cannot parse thread count"@,
        e matches ExecError::ThreadsUnknown(ThreadCountError::NoField) ==> e@.message()
            == "Failed to check thread count: "@ + "Threads field not found in /proc/self/status"@,
        e matches ExecError::ProgramNotFound(p) ==> e@.message() == "Program not found: "@ + p@,
        e matches ExecError::NotInPath(p) ==> e@.message() == "Program not found in PATH: "@ + p@,
        e is ProgramNul ==> e@.message() == "Program path contains null byte"@,
        e is ArgumentNul ==> e@.message() == "Argument contains null byte"@,
        e matches ExecError::NoWorkingDirectory { dir, reason } ==> e@.message()
            == "Cannot resolve working directory '"@ + dir@ + "': "@ + reason@,
        e is WorkingDirectoryNul ==> e@.message() == "Working directory contains null byte"@,
        e matches ExecError::PipeFailed(m) ==> e@.message() == "pipe() failed: "@ + m@,
        e matches ExecError::ForkFailed(m) ==> e@.message() == "fork() failed: "@ + m@,
        e matches ExecError::NotStarted(m) ==> e@.message() == m@,
        e matches ExecError::WaitFailed(m) ==> e@.message() == "waitpid() failed: "@ + m@,
        e is UnexpectedStatus ==> e@.message() == "Child process exited with unexpected status"@,
        e@.blame() == Blame::Value <==> e is EmptyCommand || e is BadTimeout,
{
}

/// What is to be done after a look at a child is seen as it is.
pub proof fn lemma_wait_actions_are_seen(action: WaitAction)
    ensures
        action is LookAgain <==> action@ is LookAgain,
        action matches WaitAction::Sleep(ms) ==> action@ == WaitActionView::Sleep(ms),
        action matches WaitAction::Kill(code) ==> action@ == WaitActionView::Kill(code as int),
        action matches WaitAction::Finish(code) ==> action@ == WaitActionView::Finish(code as int),
        action matches WaitAction::Fail(e) ==> action@ == WaitActionView::Fail(e@),
{
}

/// Each inherited variable without null bytes is in the environment of a child, as its
/// name, an equals sign and its value, unless the name of a variable that is set anew
/// is written with exactly the same bytes.
pub proof fn lemma_inherited_reaches(
    inherited: Seq<(Vec<u8>, Vec<u8>)>,
    overrides: Option<Vec<(String, String)>>,
    i: int,
)
    requires
        0 <= i < inherited.len(),
        forall|k: int|
            0 <= k < inherited[i].0@.len() ==> #[trigger] inherited[i].0@[k] != 0u8,
        forall|k: int|
            0 <= k < inherited[i].1@.len() ==> #[trigger] inherited[i].1@[k] != 0u8,
        overrides matches Some(v) ==> forall|j: int|
            0 <= j < v@.len() ==> encode_utf8((#[trigger] v@[j]).0@) != inherited[i].0@,
    ensures
        env_lines(env_pairs(pair_views(inherited), override_views(overrides))).contains(
            inherited[i].0@ + seq![61u8] + inherited[i].1@,
        ),
{
    let key = inherited[i].0@;
    let value = inherited[i].1@;
    let given = pair_views(inherited);
    let anew = override_views(overrides);
    lemma_variables_are_seen(inherited, overrides);
    assert(given[i] == (key, value));
    assert forall|j: int| 0 <= j < anew.len() implies (#[trigger] anew[j]).0 != key by {
        assert(anew[j].0 == encode_utf8(overrides->0@[j].0@));
    }
    lemma_inherited_unless_set_anew(given, anew, key, value);
}

/// The bytes of each of several byte strings are seen, in order.
pub proof fn lemma_bytes_are_seen(v: Seq<Vec<u8>>)
    ensures
        byte_views(v).len() == v.len(),
        forall|i: int| 0 <= i < v.len() ==> #[trigger] byte_views(v)[i] == v[i]@,
{
}

} // verus!
