//! How a tick's command line is turned into the program and arguments that
//! are actually spawned: either through a configured shell, with `-c`
//! appended when missing, or directly with the first word as the program.
//! The spawning itself is the host's job.

use vstd::prelude::*;
use vstd::string::StringExecFns;

use crate::unicode::str_to_chars;

verus! {

/// Whether two string slices hold the same characters.
pub fn str_eq(a: &str, b: &str) -> (r: bool)
    ensures
        r == (a@ == b@),
{
    let av = str_to_chars(a);
    let bv = str_to_chars(b);
    if av.len() != bv.len() {
        proof {
            assert(a@ != b@);
        }
        return false;
    }
    let mut i: usize = 0;
    while i < av.len()
        invariant
            i <= av@.len(),
            av@.len() == bv@.len(),
            av@ == a@,
            bv@ == b@,
            forall|k: int| 0 <= k < i ==> a@[k] == b@[k],
        decreases av@.len() - i,
    {
        if av[i] != bv[i] {
            return false;
        }
        i = i + 1;
    }
    proof {
        assert(a@ =~= b@);
    }
    true
}

/// The command words joined with single spaces.
pub open spec fn join_spaces(parts: Seq<Seq<char>>) -> Seq<char>
    decreases parts.len(),
{
    if parts.len() == 0 {
        Seq::empty()
    } else if parts.len() == 1 {
        parts[0]
    } else {
        join_spaces(parts.drop_last()) + seq![' '] + parts.last()
    }
}

/// The view of every command word.
pub open spec fn words_view(parts: Seq<String>) -> Seq<Seq<char>> {
    Seq::new(parts.len(), |i: int| parts[i]@)
}

/// Joins command words with single spaces.
pub fn join_command(command: &Vec<String>) -> (r: String)
    ensures
        r@ == join_spaces(words_view(command@)),
{
    let mut out = String::new();
    let mut i: usize = 0;
    proof {
        assert(words_view(command@.take(0)) =~= Seq::<Seq<char>>::empty());
    }
    while i < command.len()
        invariant
            i <= command@.len(),
            out@ == join_spaces(words_view(command@.take(i as int))),
        decreases command@.len() - i,
    {
        if i > 0 {
            out.append(" ");
        }
        out.append(command[i].as_str());
        proof {
            reveal_strlit(" ");
            assert(" "@ =~= seq![' ']);
            let pre = words_view(command@.take(i as int));
            let post = words_view(command@.take(i + 1));
            assert(post.drop_last() =~= pre);
            assert(post.last() == command@[i as int]@);
            assert(out@ =~= join_spaces(post));
        }
        i = i + 1;
    }
    proof {
        assert(command@.take(command@.len() as int) =~= command@);
    }
    out
}

/// Whether some shell option is exactly `-c`.
pub open spec fn has_dash_c(opts: Seq<String>) -> bool {
    exists|i: int| 0 <= i < opts.len() && (#[trigger] opts[i])@ == "-c"@
}

/// The program and argument list one tick spawns. With a shell, the shell
/// runs the joined command line, with `-c` appended to its options when
/// they lack it; without one, the first word is the program and the rest
/// are its arguments.
pub fn prepare_command(command: Vec<String>, shell: Option<(String, Vec<String>)>) -> (r: (
    String,
    Vec<String>,
))
    requires
        shell is None ==> command@.len() > 0,
    ensures
        (match shell {
            Some((sh, opts)) => r.0@ == sh@ && {
                let base = if has_dash_c(opts@) {
                    words_view(opts@)
                } else {
                    words_view(opts@).push("-c"@)
                };
                &&& r.1@.len() == base.len() + 1
                &&& (forall|i: int| 0 <= i < base.len() ==> (#[trigger] r.1@[i])@ == base[i])
                &&& r.1@.last()@ == join_spaces(words_view(command@))
            },
            None => r.0@ == command@[0]@ && r.1@.len() == command@.len() - 1 && (forall|i: int|
                0 <= i < r.1@.len() ==> (#[trigger] r.1@[i])@ == command@[i + 1]@),
        }),
{
    match shell {
        Some((sh, opts)) => {
            let mut shell_options = opts;
            let mut found = false;
            let mut i: usize = 0;
            while i < shell_options.len()
                invariant
                    i <= shell_options@.len(),
                    found == exists|k: int|
                        0 <= k < i && (#[trigger] shell_options@[k])@ == "-c"@,
                decreases shell_options@.len() - i,
            {
                if str_eq(shell_options[i].as_str(), "-c") {
                    found = true;
                }
                i = i + 1;
            }
            let ghost opts0 = shell_options@;
            if !found {
                shell_options.push(dash_c());
            }
            let joined = join_command(&command);
            shell_options.push(joined);
            proof {
                let base = if has_dash_c(opts0) {
                    words_view(opts0)
                } else {
                    words_view(opts0).push("-c"@)
                };
                assert(forall|i: int|
                    0 <= i < base.len() ==> (#[trigger] shell_options@[i])@ == base[i]);
                assert(shell_options@.last()@ == join_spaces(words_view(command@)));
            }
            (sh, shell_options)
        },
        None => {
            let mut args: Vec<String> = Vec::new();
            let program = command[0].clone();
            let mut i: usize = 1;
            while i < command.len()
                invariant
                    1 <= i <= command@.len(),
                    command@.len() > 0,
                    args@.len() == i - 1,
                    forall|k: int| 0 <= k < args@.len() ==> (#[trigger] args@[k])@ == command@[k
                        + 1]@,
                decreases command@.len() - i,
            {
                args.push(command[i].clone());
                i = i + 1;
            }
            (program, args)
        },
    }
}

/// A fresh `-c` string.
fn dash_c() -> (r: String)
    ensures
        r@ == "-c"@,
{
    let mut s = String::new();
    s.append("-c");
    s
}

/// Whether the configured shell is PowerShell.
pub fn is_pwsh(shell: &Option<(String, Vec<String>)>) -> (r: bool)
    ensures
        r == (match shell {
            Some((sh, _)) => sh@ == "pwsh"@,
            None => false,
        }),
{
    match shell {
        Some((sh, _)) => str_eq(sh.as_str(), "pwsh"),
        None => false,
    }
}

} // verus!
