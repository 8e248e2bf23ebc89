//! Plugin subcommand parsing and command-name suggestions.

use vstd::prelude::*;

use crate::errors::Error;

verus! {

/// The flag that disables the plugin compatibility check.
pub fn override_flag() -> (r: String)
    ensures
        r@ == "--override-compatibility-check"@,
{
    "--override-compatibility-check".to_owned()
}

/// Whether `args` holds a string equal to `arg`.
pub open spec fn arg_in_list(args: Seq<String>, arg: Seq<char>) -> bool {
    exists|i: int| 0 <= i < args.len() && args[i]@ == arg
}

/// `args` with every copy of `arg` removed, order kept.
pub open spec fn without_arg(args: Seq<String>, arg: Seq<char>) -> Seq<String>
    decreases args.len(),
{
    if args.len() == 0 {
        Seq::empty()
    } else {
        let rest = without_arg(args.drop_last(), arg);
        if args.last()@ == arg {
            rest
        } else {
            rest.push(args.last())
        }
    }
}

/// The commands of `commands` within edit distance two of `target`,
/// order kept.
pub open spec fn close_commands(commands: Seq<String>, target: Seq<char>) -> Seq<String>
    decreases commands.len(),
{
    if commands.len() == 0 {
        Seq::empty()
    } else {
        let rest = close_commands(commands.drop_last(), target);
        if edit_distance(commands.last()@, target) <= 2 {
            rest.push(commands.last())
        } else {
            rest
        }
    }
}

/// Removes every copy of `arg` from `args`, keeping the order of the
/// rest; reports whether any copy was there.
pub fn remove_arg(arg: &String, args: &mut Vec<String>) -> (r: bool)
    ensures
        r == arg_in_list(old(args)@, arg@),
        final(args)@ == without_arg(old(args)@, arg@),
{
    let n = args.len();
    let mut out: Vec<String> = Vec::new();
    let mut found = false;
    let mut i: usize = 0;
    while i < n
        invariant
            n == args@.len(),
            args@ == old(args)@,
            i <= n,
            out@ == without_arg(old(args)@.take(i as int), arg@),
            found == arg_in_list(old(args)@.take(i as int), arg@),
        decreases n - i,
    {
        proof {
            assert(args@.take(i + 1).drop_last() =~= args@.take(i as int));
            assert(args@.take(i + 1).last() == args@[i as int]);
        }
        if args[i] == *arg {
            found = true;
            proof {
                assert(args@.take(i + 1)[i as int]@ == arg@);
            }
        } else {
            out.push(args[i].clone());
        }
        proof {
            assert(arg_in_list(old(args)@.take(i + 1), arg@) <==> (arg_in_list(
                old(args)@.take(i as int),
                arg@,
            ) || old(args)@[i as int]@ == arg@)) by {
                if arg_in_list(old(args)@.take(i + 1), arg@) {
                    let k = choose|k: int|
                        0 <= k < i + 1 && #[trigger] old(args)@.take(i + 1)[k]@ == arg@;
                    if k < i {
                        assert(old(args)@.take(i as int)[k]@ == arg@);
                    }
                }
                if arg_in_list(old(args)@.take(i as int), arg@) {
                    let k = choose|k: int|
                        0 <= k < i && #[trigger] old(args)@.take(i as int)[k]@ == arg@;
                    assert(old(args)@.take(i + 1)[k]@ == arg@);
                }
                if old(args)@[i as int]@ == arg@ {
                    assert(old(args)@.take(i + 1)[i as int]@ == arg@);
                }
            }
        }
        proof {
            assert(out@ =~= without_arg(old(args)@.take(i + 1), arg@));
        }
        i += 1;
    }
    proof {
        assert(old(args)@.take(n as int) =~= old(args)@);
    }
    *args = out;
    found
}

/// Parses a plugin invocation: strips the compatibility-override
/// flag, then takes the first remaining word as the plugin name and
/// the rest as its arguments.  Fails exactly when no word remains.
pub fn parse_subcommand(cmd: Vec<String>) -> (r: Result<(String, Vec<String>, bool), Error>)
    ensures
        ({
            let stripped = without_arg(cmd@, "--override-compatibility-check"@);
            &&& (stripped.len() == 0 ==> (r matches Err(e) && e matches Error::BackendFailure(m)
                && m@ == "Expected subcommand"@))
            &&& (stripped.len() > 0 ==> (r matches Ok(p) && p.0 == stripped.first() && p.1@
                == stripped.drop_first() && p.2 == arg_in_list(
                cmd@,
                "--override-compatibility-check"@,
            )))
        }),
{
    let flag = override_flag();
    let mut args = cmd;
    let contained = remove_arg(&flag, &mut args);
    if args.len() == 0 {
        return Err(Error::BackendFailure("Expected subcommand".to_owned()));
    }
    let name = args.remove(0);
    proof {
        assert(args@ =~= without_arg(cmd@, "--override-compatibility-check"@).drop_first());
    }
    Ok((name, args, contained))
}

/// The edit distance between two texts: the least number of
/// insertions, deletions and substitutions of one character that
/// turns one into the other.
pub open spec fn edit_distance(a: Seq<char>, b: Seq<char>) -> int
    decreases a.len(), b.len(),
{
    if a.len() == 0 {
        b.len() as int
    } else if b.len() == 0 {
        a.len() as int
    } else {
        let sub = edit_distance(a.drop_first(), b.drop_first()) + (if a.first() == b.first() {
            0int
        } else {
            1int
        });
        let del = edit_distance(a.drop_first(), b) + 1;
        let ins = edit_distance(a, b.drop_first()) + 1;
        vstd::math::min(vstd::math::min(sub, del), ins)
    }
}

/// Relies on `levenshtein::levenshtein`: it computes the edit
/// distance between the two texts' characters, counting insertions,
/// deletions and substitutions at cost one each.
pub assume_specification [ levenshtein::levenshtein ](a: &str, b: &str) -> (r: usize)
    ensures
        r == edit_distance(a@, b@),
;

/// The commands among `commands` whose name is within edit distance
/// two of `target`, in their given order.
pub fn similar_commands(commands: &Vec<String>, target: &String) -> (r: Vec<String>)
    ensures
        r@ == close_commands(commands@, target@),
{
    let n = commands.len();
    let mut out: Vec<String> = Vec::new();
    let mut i: usize = 0;
    while i < n
        invariant
            n == commands@.len(),
            i <= n,
            out@ == close_commands(commands@.take(i as int), target@),
        decreases n - i,
    {
        proof {
            assert(commands@.take(i + 1).drop_last() =~= commands@.take(i as int));
            assert(commands@.take(i + 1).last() == commands@[i as int]);
        }
        if levenshtein::levenshtein(commands[i].as_str(), target.as_str()) <= 2 {
            out.push(commands[i].clone());
        }
        proof {
            assert(out@ =~= close_commands(commands@.take(i + 1), target@));
        }
        i += 1;
    }
    proof {
        assert(commands@.take(n as int) =~= commands@);
    }
    out
}

} // verus!
